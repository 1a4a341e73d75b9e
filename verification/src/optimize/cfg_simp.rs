//! Control-flow simplification: removes blocks no path reaches, folds
//! branches whose outcome is fixed, and routes edges past blocks that only
//! jump on.

use vstd::prelude::*;
use std::collections::HashSet;
use crate::blockmap::{BlockId, BlockMap};
use crate::ssa::{SsaCFG, SsaBasicBlock, SsaPhiNode, SsaReg, SsaTerminator, SsaSelectCase};
use crate::ssa::instruction::SsaInstruction;
use crate::ssa::transformer::{num_false, covers, lemma_num_false_covers};
use crate::optimize::OptimizationPass;
use crate::optimize::graph::{ssa_term_succs, get_terminator_successors, preds_of, predecessors_of, lemma_preds_upto_has};

verus! {

/// Instruction `s` names block `b` through the instruction map: the body or
/// end of a relativistic block, a watchdog's recovery, a speculation's
/// fallback.
pub open spec fn names_block(pcmap: Seq<BlockId>, s: SsaInstruction, b: BlockId) -> bool {
    match s {
        SsaInstruction::RelativisticBlock { block_pc, block_len, .. } =>
            (block_pc < pcmap.len() && pcmap[block_pc as int] == b)
            || (block_pc + block_len < pcmap.len() && pcmap[block_pc + block_len] == b),
        SsaInstruction::Watchdog { recovery_jump: Some(pc), .. } => pc < pcmap.len() && pcmap[pc as int] == b,
        SsaInstruction::Speculate { fallback_target, .. } => fallback_target < pcmap.len() && pcmap[fallback_target as int] == b,
        SsaInstruction::EndSpeculate { fallback_target, .. } => fallback_target < pcmap.len() && pcmap[fallback_target as int] == b,
        _ => false,
    }
}

/// Block `b` must stay: it is the entry, or an instruction names it.
pub open spec fn preserved(g: SsaCFG, b: BlockId) -> bool {
    ||| b == g.entry_block
    ||| exists|i: int, k: int| 0 <= i < g.blocks.entries@.len() && 0 <= k < g.blocks.entries@[i].1.instructions@.len()
        && names_block(g.original_pc_to_block_id@, #[trigger] g.blocks.entries@[i].1.instructions@[k], b)
}

fn push_unique(v: &mut Vec<BlockId>, b: BlockId)
    ensures
        forall|x: BlockId| #[trigger] final(v)@.contains(x) <==> old(v)@.contains(x) || x == b,
{
    let mut i: usize = 0;
    while i < v.len()
        invariant
            i <= v@.len(),
            forall|j: int| 0 <= j < i ==> v@[j] != b,
        decreases v@.len() - i,
    {
        if v[i] == b {
            return;
        }
        i = i + 1;
    }
    v.push(b);
    proof {
        assert forall|x: BlockId| v@.contains(x) <==> old(v)@.contains(x) || x == b by {
            if v@.contains(x) {
                let j = choose|j: int| 0 <= j < v@.len() && v@[j] == x;
                if j < old(v)@.len() {
                    assert(old(v)@[j] == x);
                }
            }
            if old(v)@.contains(x) {
                let j = choose|j: int| 0 <= j < old(v)@.len() && old(v)@[j] == x;
                assert(v@[j] == x);
            }
            if x == b {
                assert(v@[old(v)@.len() as int] == x);
            }
        }
    }
}

/// The blocks that instruction `s` names, without repeats.
fn named_blocks(m: &Vec<BlockId>, s: &SsaInstruction) -> (r: Vec<BlockId>)
    ensures
        forall|b: BlockId| #[trigger] r@.contains(b) <==> names_block(m@, *s, b),
{
    let mut r: Vec<BlockId> = Vec::new();
    match s {
        SsaInstruction::RelativisticBlock { block_pc, block_len, .. } => {
            if *block_pc < m.len() {
                push_unique(&mut r, m[*block_pc]);
            }
            if *block_pc < m.len() && *block_len < m.len() - *block_pc {
                push_unique(&mut r, m[*block_pc + *block_len]);
            }
        },
        SsaInstruction::Watchdog { recovery_jump: Some(pc), .. } => {
            if *pc < m.len() {
                push_unique(&mut r, m[*pc]);
            }
        },
        SsaInstruction::Speculate { fallback_target, .. } | SsaInstruction::EndSpeculate { fallback_target, .. } => {
            if *fallback_target < m.len() {
                push_unique(&mut r, m[*fallback_target]);
            }
        },
        _ => {},
    }
    r
}

/// The blocks that must stay (see `preserved`), without repeats.
fn get_preserved_blocks(ssa_cfg: &SsaCFG) -> (r: Vec<BlockId>)
    ensures
        forall|b: BlockId| #[trigger] r@.contains(b) <==> preserved(*ssa_cfg, b),
{
    let ghost e = ssa_cfg.blocks.entries@;
    let ghost pcmap = ssa_cfg.original_pc_to_block_id@;
    let m = &ssa_cfg.original_pc_to_block_id;
    let mut r: Vec<BlockId> = Vec::new();
    push_unique(&mut r, ssa_cfg.entry_block);
    let mut i: usize = 0;
    while i < ssa_cfg.blocks.entries.len()
        invariant
            e == ssa_cfg.blocks.entries@,
            pcmap == m@,
            *m == ssa_cfg.original_pc_to_block_id,
            i <= e.len(),
            forall|b: BlockId| #[trigger] r@.contains(b) <==> (b == ssa_cfg.entry_block || exists|i2: int, k: int| 0 <= i2 < i
                && 0 <= k < e[i2].1.instructions@.len() && names_block(pcmap, #[trigger] e[i2].1.instructions@[k], b)),
        decreases e.len() - i,
    {
        let blk = &ssa_cfg.blocks.entries[i].1;
        let ghost r0 = r@;
        let mut k: usize = 0;
        while k < blk.instructions.len()
            invariant
                e == ssa_cfg.blocks.entries@,
                pcmap == m@,
                i < e.len(),
                *blk == e[i as int].1,
                k <= blk.instructions@.len(),
                forall|b: BlockId| #[trigger] r@.contains(b) <==> (r0.contains(b) || exists|k2: int| 0 <= k2 < k
                    && names_block(pcmap, #[trigger] blk.instructions@[k2], b)),
            decreases blk.instructions@.len() - k,
        {
            let ghost r1 = r@;
            let named = named_blocks(m, &blk.instructions[k]);
            let mut q: usize = 0;
            while q < named.len()
                invariant
                    q <= named@.len(),
                    forall|b: BlockId| #[trigger] r@.contains(b) <==> (r1.contains(b) || exists|q2: int| 0 <= q2 < q && named@[q2] == b),
                decreases named@.len() - q,
            {
                push_unique(&mut r, named[q]);
                q = q + 1;
            }
            proof {
                let s = blk.instructions@[k as int];
                assert forall|b: BlockId| #[trigger] r@.contains(b) <==> (r0.contains(b) || exists|k2: int| 0 <= k2 < k + 1
                    && names_block(pcmap, #[trigger] blk.instructions@[k2], b)) by {
                    if names_block(pcmap, s, b) {
                        assert(named@.contains(b));
                    }
                    if r@.contains(b) && !r1.contains(b) {
                        let q2 = choose|q2: int| 0 <= q2 < named@.len() && named@[q2] == b;
                        assert(named@.contains(b));
                    }
                    if exists|k2: int| 0 <= k2 < k + 1 && names_block(pcmap, #[trigger] blk.instructions@[k2], b) {
                        let k2 = choose|k2: int| 0 <= k2 < k + 1 && names_block(pcmap, #[trigger] blk.instructions@[k2], b);
                        if k2 == k {
                            assert(named@.contains(b));
                            let q2 = choose|q2: int| 0 <= q2 < named@.len() && named@[q2] == b;
                        }
                    }
                }
            }
            k = k + 1;
        }
        proof {
            assert forall|b: BlockId| #[trigger] r@.contains(b) <==> (b == ssa_cfg.entry_block || exists|i2: int, k: int| 0 <= i2 < i + 1
                && 0 <= k < e[i2].1.instructions@.len() && names_block(pcmap, #[trigger] e[i2].1.instructions@[k], b)) by {
                if exists|k2: int| 0 <= k2 < blk.instructions@.len() && names_block(pcmap, #[trigger] blk.instructions@[k2], b) {
                    let k2 = choose|k2: int| 0 <= k2 < blk.instructions@.len() && names_block(pcmap, #[trigger] blk.instructions@[k2], b);
                    assert(names_block(pcmap, e[i as int].1.instructions@[k2], b));
                }
                if exists|i2: int, k: int| 0 <= i2 < i + 1 && 0 <= k < e[i2].1.instructions@.len()
                    && names_block(pcmap, #[trigger] e[i2].1.instructions@[k], b) {
                    let (i2, k2) = choose|i2: int, k: int| 0 <= i2 < i + 1 && 0 <= k < e[i2].1.instructions@.len()
                        && names_block(pcmap, #[trigger] e[i2].1.instructions@[k], b);
                    if i2 == i {
                        assert(names_block(pcmap, blk.instructions@[k2], b));
                    }
                }
            }
        }
        i = i + 1;
    }
    r
}

/// Step `k` of `w` follows an edge of the graph.
pub open spec fn walk_step(g: SsaCFG, w: Seq<BlockId>, k: int) -> bool {
    g.blocks.has(w[k]) && ssa_term_succs(g.blocks.at(w[k]).terminator).contains(w[k + 1])
}

/// `w` is a path of the graph that starts at a block that must stay.
pub open spec fn ssa_walk(g: SsaCFG, w: Seq<BlockId>) -> bool {
    &&& w.len() > 0
    &&& preserved(g, w[0])
    &&& forall|k: int| 0 <= k < w.len() - 1 ==> #[trigger] walk_step(g, w, k)
}

/// Some path from a block that must stay ends at `b`.
pub open spec fn ssa_reaches(g: SsaCFG, b: BlockId) -> bool {
    exists|w: Seq<BlockId>| #[trigger] ssa_walk(g, w) && w.last() == b
}

/// The edge from `p` into `k` leaves a block that is removed.
pub open spec fn cut_edge(g: SsaCFG, p: BlockId, k: BlockId) -> bool {
    g.blocks.has(p) && !ssa_reaches(g, p) && ssa_term_succs(g.blocks.at(p).terminator).contains(k)
}

/// `b` is block `a` (stored under `k`) with every phi input that comes over
/// an edge `keep_in` rejects dropped.
pub open spec fn phis_filtered(a: SsaBasicBlock, b: SsaBasicBlock, keep_in: spec_fn((BlockId, SsaReg)) -> bool) -> bool {
    &&& b.id == a.id
    &&& b.instructions == a.instructions
    &&& b.terminator == a.terminator
    &&& b.phi_nodes@.len() == a.phi_nodes@.len()
    &&& forall|j: int| 0 <= j < a.phi_nodes@.len() ==> {
        let p = #[trigger] a.phi_nodes@[j];
        let q = b.phi_nodes@[j];
        q.dest == p.dest && q.original_reg == p.original_reg && q.incoming@ == p.incoming@.filter(keep_in)
    }
}

/// Keeps the phi inputs of block `k` that do not come over a cut edge.
pub open spec fn keeps_input(g: SsaCFG, k: BlockId) -> spec_fn((BlockId, SsaReg)) -> bool {
    |x: (BlockId, SsaReg)| !cut_edge(g, x.0, k)
}

/// `h` is `g` without the blocks no path reaches, and without the phi
/// inputs that came from them.
pub open spec fn unreachable_pruned(g: SsaCFG, h: SsaCFG) -> bool {
    &&& h.entry_block == g.entry_block
    &&& h.original_pc_to_block_id == g.original_pc_to_block_id
    &&& h.blocks.wf()
    &&& forall|b: BlockId| #[trigger] h.blocks.has(b) <==> g.blocks.has(b) && ssa_reaches(g, b)
    &&& forall|b: BlockId| #[trigger] h.blocks.has(b) ==> phis_filtered(g.blocks.at(b), h.blocks.at(b), keeps_input(g, b))
}

/// Some block of the graph is unreachable.
pub open spec fn has_unreachable(g: SsaCFG) -> bool {
    exists|b: BlockId| #[trigger] g.blocks.has(b) && !ssa_reaches(g, b)
}

proof fn lemma_walk_extend(g: SsaCFG, w: Seq<BlockId>, b: BlockId)
    requires
        ssa_walk(g, w),
        g.blocks.has(w.last()),
        ssa_term_succs(g.blocks.at(w.last()).terminator).contains(b),
    ensures
        ssa_walk(g, w.push(b)),
        w.push(b).last() == b,
{
    let w2 = w.push(b);
    assert forall|k: int| 0 <= k < w2.len() - 1 implies #[trigger] walk_step(g, w2, k) by {
        if k < w.len() - 1 {
            assert(walk_step(g, w, k));
            assert(w2[k] == w[k] && w2[k + 1] == w[k + 1]);
        } else {
            assert(w2[k] == w.last() && w2[k + 1] == b);
        }
    }
}

/// Marks closed under edges: every marked block's successors that are
/// blocks of the graph are marked.
pub open spec fn marks_closed(g: SsaCFG, marks: Seq<bool>) -> bool {
    forall|i: int, j: int| 0 <= i < marks.len() && 0 <= j < marks.len() && #[trigger] marks[i]
        && ssa_term_succs(g.blocks.entries@[i].1.terminator).contains(#[trigger] g.blocks.entries@[j].0) ==> marks[j]
}

proof fn lemma_closed_marks_walks(g: SsaCFG, marks: Seq<bool>, w: Seq<BlockId>, n: int)
    requires
        g.blocks.wf(),
        marks.len() == g.blocks.entries@.len(),
        marks_closed(g, marks),
        forall|i: int| 0 <= i < marks.len() && preserved(g, g.blocks.entries@[i].0) ==> #[trigger] marks[i],
        ssa_walk(g, w),
        0 < n <= w.len(),
        g.blocks.has(w[n - 1]),
    ensures
        marks[g.blocks.pos(w[n - 1])],
    decreases n,
{
    let e = g.blocks.entries@;
    let x = w[n - 1];
    let i = g.blocks.pos(x);
    g.blocks.lemma_pos(i);
    if n == 1 {
        assert(preserved(g, e[i].0));
    } else {
        assert(walk_step(g, w, n - 2));
        let p = w[n - 2];
        lemma_closed_marks_walks(g, marks, w, n - 1);
        let ip = g.blocks.pos(p);
        g.blocks.lemma_pos(ip);
        assert(ssa_term_succs(e[ip].1.terminator).contains(e[i].0));
    }
}

/// Marks exactly the blocks some path reaches, by position.
fn reachable_marks(ssa_cfg: &SsaCFG) -> (marks: Vec<bool>)
    requires
        ssa_cfg.blocks.wf(),
    ensures
        marks@.len() == ssa_cfg.blocks.entries@.len(),
        forall|i: int| 0 <= i < marks@.len() ==> #[trigger] marks@[i] == ssa_reaches(*ssa_cfg, ssa_cfg.blocks.entries@[i].0),
{
    let ghost g = *ssa_cfg;
    let ghost e = g.blocks.entries@;
    let n = ssa_cfg.blocks.entries.len();
    let preserved_ids = get_preserved_blocks(ssa_cfg);
    let mut marks: Vec<bool> = Vec::new();
    let mut i: usize = 0;
    while i < n
        invariant
            g == *ssa_cfg,
            e == g.blocks.entries@,
            n == e.len(),
            i <= n,
            marks@.len() == i,
            forall|b: BlockId| preserved_ids@.contains(b) <==> preserved(g, b),
            forall|q: int| 0 <= q < i ==> #[trigger] marks@[q] == preserved(g, e[q].0),
        decreases n - i,
    {
        let id = ssa_cfg.blocks.entries[i].0;
        let mut found = false;
        let mut k: usize = 0;
        while k < preserved_ids.len()
            invariant
                k <= preserved_ids@.len(),
                found == exists|k2: int| 0 <= k2 < k && preserved_ids@[k2] == id,
            decreases preserved_ids@.len() - k,
        {
            if preserved_ids[k] == id {
                found = true;
            }
            k = k + 1;
        }
        marks.push(found);
        i = i + 1;
    }
    proof {
        assert forall|q: int| 0 <= q < n && #[trigger] marks@[q] implies ssa_reaches(g, e[q].0) by {
            let w = seq![e[q].0];
            assert(ssa_walk(g, w));
        }
    }
    let mut succs: Vec<Vec<BlockId>> = Vec::new();
    let mut i: usize = 0;
    while i < n
        invariant
            g == *ssa_cfg,
            e == g.blocks.entries@,
            n == e.len(),
            i <= n,
            succs@.len() == i,
            forall|q: int| 0 <= q < i ==> (#[trigger] succs@[q])@ == ssa_term_succs(e[q].1.terminator),
        decreases n - i,
    {
        succs.push(get_terminator_successors(&ssa_cfg.blocks.entries[i].1.terminator));
        i = i + 1;
    }
    loop
        invariant
            g == *ssa_cfg,
            g.blocks.wf(),
            e == g.blocks.entries@,
            n == e.len(),
            marks@.len() == n,
            succs@.len() == n,
            forall|q: int| 0 <= q < n ==> (#[trigger] succs@[q])@ == ssa_term_succs(e[q].1.terminator),
            forall|q: int| 0 <= q < n && preserved(g, e[q].0) ==> #[trigger] marks@[q],
            forall|q: int| 0 <= q < n && #[trigger] marks@[q] ==> ssa_reaches(g, e[q].0),
        decreases num_false(marks@),
    {
        let ghost m0 = marks@;
        let mut changed = false;
        let mut i: usize = 0;
        while i < n
            invariant
                g == *ssa_cfg,
                g.blocks.wf(),
                e == g.blocks.entries@,
                n == e.len(),
                marks@.len() == n,
                succs@.len() == n,
                forall|q: int| 0 <= q < n ==> (#[trigger] succs@[q])@ == ssa_term_succs(e[q].1.terminator),
                forall|q: int| 0 <= q < n && preserved(g, e[q].0) ==> #[trigger] marks@[q],
                forall|q: int| 0 <= q < n && #[trigger] marks@[q] ==> ssa_reaches(g, e[q].0),
                covers(marks@, m0),
                changed ==> num_false(marks@) < num_false(m0),
                !changed ==> marks@ == m0,
                i <= n,
                !changed ==> forall|a: int, j: int| 0 <= a < i && 0 <= j < n && #[trigger] marks@[a]
                    && ssa_term_succs(e[a].1.terminator).contains(#[trigger] e[j].0) ==> marks@[j],
            decreases n - i,
        {
            if marks[i] {
                let ss = &succs[i];
                let mut k: usize = 0;
                while k < ss.len()
                    invariant
                        g == *ssa_cfg,
                        g.blocks.wf(),
                        e == g.blocks.entries@,
                        n == e.len(),
                        i < n,
                        marks@.len() == n,
                        marks@[i as int],
                        ss@ == ssa_term_succs(e[i as int].1.terminator),
                        forall|q: int| 0 <= q < n && preserved(g, e[q].0) ==> #[trigger] marks@[q],
                        forall|q: int| 0 <= q < n && #[trigger] marks@[q] ==> ssa_reaches(g, e[q].0),
                        covers(marks@, m0),
                        changed ==> num_false(marks@) < num_false(m0),
                        !changed ==> marks@ == m0,
                        k <= ss@.len(),
                        !changed ==> forall|a: int, j: int| 0 <= a < i && 0 <= j < n && #[trigger] marks@[a]
                            && ssa_term_succs(e[a].1.terminator).contains(#[trigger] e[j].0) ==> marks@[j],
                        !changed ==> forall|k2: int, j: int| 0 <= k2 < k && 0 <= j < n && #[trigger] ss@[k2] == #[trigger] e[j].0 ==> marks@[j],
                    decreases ss@.len() - k,
                {
                    match ssa_cfg.blocks.find(ss[k]) {
                        Some(j) => {
                            if !marks[j] {
                                proof {
                                    let w = choose|w: Seq<BlockId>| #[trigger] ssa_walk(g, w) && w.last() == e[i as int].0;
                                    g.blocks.lemma_pos(i as int);
                                    assert(ss@.contains(ss@[k as int]));
                                    lemma_walk_extend(g, w, ss@[k as int]);
                                }
                                let ghost mb = marks@;
                                marks.set(j, true);
                                proof {
                                    assert(marks@[j as int]);
                                    assert(covers(marks@, mb));
                                    assert(covers(marks@, m0));
                                    lemma_num_false_covers(marks@, m0);
                                    lemma_num_false_covers(marks@, mb);
                                    assert(!m0[j as int]);
                                }
                                changed = true;
                            }
                        },
                        None => {},
                    }
                    k = k + 1;
                }
                proof {
                    if !changed {
                        assert forall|j: int| 0 <= j < n && ss@.contains(#[trigger] e[j].0) implies marks@[j] by {
                            let k2 = choose|k2: int| 0 <= k2 < ss@.len() && ss@[k2] == e[j].0;
                        }
                    }
                }
            }
            i = i + 1;
        }
        proof {
            lemma_num_false_covers(marks@, m0);
        }
        if !changed {
            proof {
                assert(marks_closed(g, marks@));
                assert forall|q: int| 0 <= q < n implies #[trigger] marks@[q] == ssa_reaches(g, e[q].0) by {
                    if ssa_reaches(g, e[q].0) {
                        let w = choose|w: Seq<BlockId>| #[trigger] ssa_walk(g, w) && w.last() == e[q].0;
                        g.blocks.lemma_pos(q);
                        lemma_closed_marks_walks(g, marks@, w, w.len() as int);
                    }
                }
            }
            return marks;
        }
    }
}

proof fn lemma_filter_all<T>(s: Seq<T>, f: spec_fn(T) -> bool)
    requires
        forall|i: int| 0 <= i < s.len() ==> f(#[trigger] s[i]),
    ensures
        s.filter(f) == s,
    decreases s.len(),
{
    reveal(Seq::filter);
    if s.len() > 0 {
        assert forall|i: int| 0 <= i < s.drop_last().len() implies f(#[trigger] s.drop_last()[i]) by {
            assert(s.drop_last()[i] == s[i]);
        }
        lemma_filter_all(s.drop_last(), f);
        assert(f(s[s.len() - 1]));
        assert(s.drop_last().push(s.last()) =~= s);
    }
}

/// `ni` is `inc` without the inputs whose block is listed in `cut`.
fn filter_incoming(inc: &Vec<(BlockId, SsaReg)>, cut: &Vec<BlockId>) -> (ni: Vec<(BlockId, SsaReg)>)
    ensures
        ni@ == inc@.filter(|x: (BlockId, SsaReg)| !cut@.contains(x.0)),
{
    let ghost keep = |x: (BlockId, SsaReg)| !cut@.contains(x.0);
    let mut ni: Vec<(BlockId, SsaReg)> = Vec::new();
    let mut k: usize = 0;
    while k < inc.len()
        invariant
            keep == |x: (BlockId, SsaReg)| !cut@.contains(x.0),
            k <= inc@.len(),
            ni@ == inc@.subrange(0, k as int).filter(keep),
        decreases inc@.len() - k,
    {
        let (p, r) = inc[k];
        let mut listed = false;
        let mut q: usize = 0;
        while q < cut.len()
            invariant
                q <= cut@.len(),
                listed == exists|q2: int| 0 <= q2 < q && cut@[q2] == p,
            decreases cut@.len() - q,
        {
            if cut[q] == p {
                listed = true;
            }
            q = q + 1;
        }
        proof {
            reveal(Seq::filter);
            assert(inc@.subrange(0, k + 1).drop_last() =~= inc@.subrange(0, k as int));
        }
        if !listed {
            ni.push((p, r));
        }
        k = k + 1;
    }
    assert(inc@.subrange(0, inc@.len() as int) =~= inc@);
    ni
}

/// The blocks whose edge into block `k` is cut: removed blocks with an edge
/// into `k`.
fn cut_preds(ssa_cfg: &SsaCFG, marks: &Vec<bool>, succs: &Vec<Vec<BlockId>>, k: BlockId) -> (cut: Vec<BlockId>)
    requires
        ssa_cfg.blocks.wf(),
        marks@.len() == ssa_cfg.blocks.entries@.len(),
        forall|i: int| 0 <= i < marks@.len() ==> #[trigger] marks@[i] == ssa_reaches(*ssa_cfg, ssa_cfg.blocks.entries@[i].0),
        succs@.len() == ssa_cfg.blocks.entries@.len(),
        forall|q: int| 0 <= q < succs@.len() ==> (#[trigger] succs@[q])@ == ssa_term_succs(ssa_cfg.blocks.entries@[q].1.terminator),
    ensures
        forall|p: BlockId| #[trigger] cut@.contains(p) <==> cut_edge(*ssa_cfg, p, k),
{
    let ghost e = ssa_cfg.blocks.entries@;
    let mut cut: Vec<BlockId> = Vec::new();
    let mut i: usize = 0;
    while i < marks.len()
        invariant
            e == ssa_cfg.blocks.entries@,
            ssa_cfg.blocks.wf(),
            marks@.len() == e.len(),
            forall|i: int| 0 <= i < marks@.len() ==> #[trigger] marks@[i] == ssa_reaches(*ssa_cfg, e[i].0),
            succs@.len() == e.len(),
            forall|q: int| 0 <= q < succs@.len() ==> (#[trigger] succs@[q])@ == ssa_term_succs(e[q].1.terminator),
            i <= e.len(),
            forall|p: BlockId| #[trigger] cut@.contains(p) <==> exists|q: int| 0 <= q < i && (#[trigger] e[q]).0 == p
                && !marks@[q] && succs@[q]@.contains(k),
        decreases e.len() - i,
    {
        let mut hit = false;
        if !marks[i] {
            let ss = &succs[i];
            let mut q: usize = 0;
            while q < ss.len()
                invariant
                    q <= ss@.len(),
                    hit == exists|q2: int| 0 <= q2 < q && ss@[q2] == k,
                decreases ss@.len() - q,
            {
                if ss[q] == k {
                    hit = true;
                }
                q = q + 1;
            }
        }
        let ghost c0 = cut@;
        let p = ssa_cfg.blocks.entries[i].0;
        if hit {
            cut.push(p);
        }
        proof {
            assert forall|x: BlockId| #[trigger] cut@.contains(x) <==> exists|q: int| 0 <= q < i + 1 && (#[trigger] e[q]).0 == x
                && !marks@[q] && succs@[q]@.contains(k) by {
                if cut@.contains(x) && !c0.contains(x) {
                    let j = choose|j: int| 0 <= j < cut@.len() && cut@[j] == x;
                    if j < c0.len() {
                        assert(c0[j] == x);
                    }
                    assert(e[i as int].0 == x);
                }
                if c0.contains(x) {
                    let j = choose|j: int| 0 <= j < c0.len() && c0[j] == x;
                    assert(cut@[j] == x);
                }
                if exists|q: int| 0 <= q < i + 1 && (#[trigger] e[q]).0 == x && !marks@[q] && succs@[q]@.contains(k) {
                    let q = choose|q: int| 0 <= q < i + 1 && (#[trigger] e[q]).0 == x && !marks@[q] && succs@[q]@.contains(k);
                    if q == i {
                        assert(cut@[cut@.len() - 1] == x);
                    }
                }
            }
        }
        i = i + 1;
    }
    proof {
        assert forall|p: BlockId| #[trigger] cut@.contains(p) <==> cut_edge(*ssa_cfg, p, k) by {
            if cut@.contains(p) {
                let q = choose|q: int| 0 <= q < e.len() && (#[trigger] e[q]).0 == p && !marks@[q] && succs@[q]@.contains(k);
                ssa_cfg.blocks.lemma_pos(q);
            }
            if cut_edge(*ssa_cfg, p, k) {
                let q = ssa_cfg.blocks.pos(p);
                ssa_cfg.blocks.lemma_pos(q);
                assert(e[q].0 == p);
            }
        }
    }
    cut
}

/// Removes the blocks no path reaches (see `ssa_reaches`) and the phi inputs
/// that came from them; says whether any block was removed.
fn eliminate_unreachable_blocks(ssa_cfg: &mut SsaCFG) -> (removed: bool)
    requires
        old(ssa_cfg).blocks.wf(),
    ensures
        unreachable_pruned(*old(ssa_cfg), *final(ssa_cfg)),
        removed == has_unreachable(*old(ssa_cfg)),
        final(ssa_cfg).blocks.entries@.len() <= old(ssa_cfg).blocks.entries@.len(),
        removed ==> final(ssa_cfg).blocks.entries@.len() < old(ssa_cfg).blocks.entries@.len(),
        !removed ==> *final(ssa_cfg) == *old(ssa_cfg),
{
    let ghost g = *ssa_cfg;
    let ghost e = g.blocks.entries@;
    let n = ssa_cfg.blocks.entries.len();
    let marks = reachable_marks(ssa_cfg);
    let mut all = true;
    let mut i: usize = 0;
    while i < n
        invariant
            n == marks@.len(),
            i <= n,
            all == forall|q: int| 0 <= q < i ==> #[trigger] marks@[q],
        decreases n - i,
    {
        if !marks[i] {
            all = false;
        }
        i = i + 1;
    }
    if all {
        proof {
            assert forall|b: BlockId| #[trigger] g.blocks.has(b) implies ssa_reaches(g, b) by {
                let j = g.blocks.pos(b);
                g.blocks.lemma_pos(j);
                assert(marks@[j]);
            }
            assert forall|b: BlockId| #[trigger] g.blocks.has(b) implies phis_filtered(g.blocks.at(b), g.blocks.at(b), keeps_input(g, b)) by {
                let a = g.blocks.at(b);
                assert forall|j: int| 0 <= j < a.phi_nodes@.len() implies (#[trigger] a.phi_nodes@[j]).incoming@
                    == a.phi_nodes@[j].incoming@.filter(keeps_input(g, b)) by {
                    let inc = a.phi_nodes@[j].incoming@;
                    assert forall|k: int| 0 <= k < inc.len() implies keeps_input(g, b)(#[trigger] inc[k]) by {
                        if cut_edge(g, inc[k].0, b) {
                            let p = g.blocks.pos(inc[k].0);
                            g.blocks.lemma_pos(p);
                            assert(marks@[p]);
                        }
                    }
                    lemma_filter_all(inc, keeps_input(g, b));
                }
            }
        }
        return false;
    }
    let mut succs: Vec<Vec<BlockId>> = Vec::new();
    let mut i: usize = 0;
    while i < n
        invariant
            g == *ssa_cfg,
            e == g.blocks.entries@,
            n == e.len(),
            i <= n,
            succs@.len() == i,
            forall|q: int| 0 <= q < i ==> (#[trigger] succs@[q])@ == ssa_term_succs(e[q].1.terminator),
        decreases n - i,
    {
        succs.push(get_terminator_successors(&ssa_cfg.blocks.entries[i].1.terminator));
        i = i + 1;
    }
    let mut cuts: Vec<Vec<BlockId>> = Vec::new();
    let mut i: usize = 0;
    while i < n
        invariant
            g == *ssa_cfg,
            e == g.blocks.entries@,
            g.blocks.wf(),
            n == e.len(),
            i <= n,
            marks@.len() == n,
            forall|q: int| 0 <= q < n ==> #[trigger] marks@[q] == ssa_reaches(g, e[q].0),
            succs@.len() == n,
            forall|q: int| 0 <= q < n ==> (#[trigger] succs@[q])@ == ssa_term_succs(e[q].1.terminator),
            cuts@.len() == i,
            forall|q: int, p: BlockId| 0 <= q < i ==> (#[trigger] cuts@[q]@.contains(p) <==> cut_edge(g, p, e[q].0)),
        decreases n - i,
    {
        cuts.push(cut_preds(ssa_cfg, &marks, &succs, ssa_cfg.blocks.entries[i].0));
        i = i + 1;
    }
    let mut rest: Vec<(BlockId, SsaBasicBlock)> = Vec::new();
    std::mem::swap(&mut rest, &mut ssa_cfg.blocks.entries);
    let mut kept: Vec<(BlockId, SsaBasicBlock)> = Vec::new();
    let ghost mut idx: Seq<int> = Seq::empty();
    let mut removed = false;
    let mut i: usize = 0;
    while i < n
        invariant
            e == g.blocks.entries@,
            g.blocks.wf(),
            n == e.len(),
            i <= n,
            marks@.len() == n,
            forall|q: int| 0 <= q < n ==> #[trigger] marks@[q] == ssa_reaches(g, e[q].0),
            cuts@.len() == n,
            forall|q: int, p: BlockId| 0 <= q < n ==> (#[trigger] cuts@[q]@.contains(p) <==> cut_edge(g, p, e[q].0)),
            rest@ == e.subrange(i as int, n as int),
            ssa_cfg.entry_block == g.entry_block,
            ssa_cfg.original_pc_to_block_id == g.original_pc_to_block_id,
            idx.len() == kept@.len(),
            kept@.len() <= i,
            forall|q: int| 0 <= q < idx.len() ==> 0 <= #[trigger] idx[q] < i,
            forall|q1: int, q2: int| 0 <= q1 < q2 < idx.len() ==> #[trigger] idx[q1] < #[trigger] idx[q2],
            forall|q: int| 0 <= q < idx.len() ==> marks@[#[trigger] idx[q]],
            forall|q: int| 0 <= q < idx.len() ==> (#[trigger] kept@[q]).0 == e[idx[q]].0
                && phis_filtered(e[idx[q]].1, kept@[q].1, keeps_input(g, e[idx[q]].0)),
            forall|j: int| 0 <= j < i && #[trigger] marks@[j] ==> exists|q: int| 0 <= q < idx.len() && idx[q] == j,
            removed == exists|j: int| 0 <= j < i && !(#[trigger] marks@[j]),
            exists|j: int| 0 <= j < n && !(#[trigger] marks@[j]),
            !removed ==> kept@.len() == i,
        decreases n - i,
    {
        let ghost r0 = rest@;
        let (id, mut blk) = rest.remove(0);
        proof {
            assert(r0[0] == e[i as int]);
            assert(rest@ =~= e.subrange(i + 1, n as int));
        }
        if marks[i] {
            let ghost b0 = blk;
            let mut j: usize = 0;
            while j < blk.phi_nodes.len()
                invariant
                    i < n,
                    cuts@.len() == n,
                    blk.id == b0.id,
                    blk.instructions == b0.instructions,
                    blk.terminator == b0.terminator,
                    blk.phi_nodes@.len() == b0.phi_nodes@.len(),
                    j <= b0.phi_nodes@.len(),
                    forall|q: int| j <= q < b0.phi_nodes@.len() ==> #[trigger] blk.phi_nodes@[q] == b0.phi_nodes@[q],
                    forall|q: int| 0 <= q < j ==> {
                        let p = #[trigger] b0.phi_nodes@[q];
                        let p2 = blk.phi_nodes@[q];
                        p2.dest == p.dest && p2.original_reg == p.original_reg
                            && p2.incoming@ == p.incoming@.filter(|x: (BlockId, SsaReg)| !cuts@[i as int]@.contains(x.0))
                    },
                decreases b0.phi_nodes@.len() - j,
            {
                let ni = filter_incoming(&blk.phi_nodes[j].incoming, &cuts[i]);
                blk.phi_nodes[j].incoming = ni;
                j = j + 1;
            }
            proof {
                let f1 = |x: (BlockId, SsaReg)| !cuts@[i as int]@.contains(x.0);
                let f2 = keeps_input(g, e[i as int].0);
                assert(f1 =~= f2);
                assert(phis_filtered(e[i as int].1, blk, f2));
            }
            let ghost k0 = kept@;
            let ghost idx0 = idx;
            kept.push((id, blk));
            proof {
                idx = idx.push(i as int);
                assert forall|q: int| 0 <= q < idx.len() implies marks@[#[trigger] idx[q]] by {
                    if q < idx0.len() {
                        assert(idx[q] == idx0[q]);
                    }
                }
                assert forall|q: int| 0 <= q < idx.len() implies (#[trigger] kept@[q]).0 == e[idx[q]].0
                    && phis_filtered(e[idx[q]].1, kept@[q].1, keeps_input(g, e[idx[q]].0)) by {
                    if q < idx0.len() {
                        assert(idx[q] == idx0[q]);
                        assert(kept@[q] == k0[q]);
                    } else {
                        assert(idx[q] == i);
                        assert(kept@[q] == (id, blk));
                    }
                }
                assert forall|j: int| 0 <= j < i + 1 && #[trigger] marks@[j] implies exists|q: int| 0 <= q < idx.len() && idx[q] == j by {
                    if j < i {
                        let q = choose|q: int| 0 <= q < idx0.len() && idx0[q] == j;
                        assert(idx[q] == j);
                    } else {
                        assert(idx[idx.len() - 1] == j);
                    }
                }
            }
        } else {
            removed = true;
        }
        i = i + 1;
    }
    proof {
        let k = kept@;
        assert(i == n);
        assert forall|a: int, b: int| 0 <= a < b < k.len() implies (#[trigger] k[a]).0 < (#[trigger] k[b]).0 by {
            assert(idx[a] < idx[b]);
        }
        let h = BlockMap { entries: kept };
        assert(h.wf());
        assert forall|b: BlockId| #[trigger] h.has(b) <==> g.blocks.has(b) && ssa_reaches(g, b) by {
            if h.has(b) {
                let q = choose|q: int| 0 <= q < k.len() && (#[trigger] k[q]).0 == b;
                g.blocks.lemma_pos(idx[q]);
            }
            if g.blocks.has(b) && ssa_reaches(g, b) {
                let j = g.blocks.pos(b);
                g.blocks.lemma_pos(j);
                assert(marks@[j]);
                let q = choose|q: int| 0 <= q < idx.len() && idx[q] == j;
                assert(k[q].0 == b);
            }
        }
        assert forall|b: BlockId| #[trigger] h.has(b) implies phis_filtered(g.blocks.at(b), h.at(b), keeps_input(g, b)) by {
            let q = h.pos(b);
            h.lemma_pos(q);
            g.blocks.lemma_pos(idx[q]);
        }
        {
            let j = choose|j: int| 0 <= j < n && !(#[trigger] marks@[j]);
            assert forall|q: int| 0 <= q < idx.len() implies #[trigger] idx[q] != j by {}
            lemma_strict_index_bound(idx, n as int, j);
            g.blocks.lemma_pos(j);
            assert(g.blocks.has(e[j].0) && !ssa_reaches(g, e[j].0));
        }
    }
    ssa_cfg.blocks.entries = kept;
    removed
}

/// A strictly increasing sequence of indices below `n` that misses `j`
/// has fewer than `n` entries.
proof fn lemma_strict_index_bound(idx: Seq<int>, n: int, j: int)
    requires
        0 <= n,
        0 <= j < n,
        forall|q: int| 0 <= q < idx.len() ==> 0 <= #[trigger] idx[q] < n,
        forall|q1: int, q2: int| 0 <= q1 < q2 < idx.len() ==> #[trigger] idx[q1] < #[trigger] idx[q2],
        forall|q: int| 0 <= q < idx.len() ==> #[trigger] idx[q] != j,
    ensures
        idx.len() < n,
    decreases n,
{
    if idx.len() > 0 {
        let last = idx.last();
        if last == n - 1 {
            let idx2 = idx.drop_last();
            assert forall|q: int| 0 <= q < idx2.len() implies 0 <= #[trigger] idx2[q] < n - 1 by {
                assert(idx[q] < idx[idx.len() - 1]);
            }
            if j < n - 1 {
                lemma_strict_index_bound(idx2, n - 1, j);
            } else {
                lemma_index_bound(idx2, n - 1);
            }
        } else {
            assert forall|q: int| 0 <= q < idx.len() implies 0 <= #[trigger] idx[q] < n - 1 by {
                if q < idx.len() - 1 {
                    assert(idx[q] < idx[idx.len() - 1]);
                }
            }
            lemma_index_bound(idx, n - 1);
        }
    }
}

/// A strictly increasing sequence of indices below `n` has at most `n` entries.
proof fn lemma_index_bound(idx: Seq<int>, n: int)
    requires
        0 <= n,
        forall|q: int| 0 <= q < idx.len() ==> 0 <= #[trigger] idx[q] < n,
        forall|q1: int, q2: int| 0 <= q1 < q2 < idx.len() ==> #[trigger] idx[q1] < #[trigger] idx[q2],
    ensures
        idx.len() <= n,
    decreases idx.len(),
{
    if idx.len() > 0 {
        assert(0 <= idx[0] < n);
        let idx2 = idx.drop_last();
        assert forall|q: int| 0 <= q < idx2.len() implies 0 <= #[trigger] idx2[q] < n - 1 by {
            assert(idx[q] < idx[idx.len() - 1]);
        }
        lemma_index_bound(idx2, n - 1);
    }
}

/// The boolean constants that the first `k` instructions of `s` define, in order.
pub open spec fn instr_bool_defs(s: Seq<SsaInstruction>, k: int) -> Seq<(SsaReg, bool)>
    decreases k,
{
    if k <= 0 {
        Seq::empty()
    } else {
        instr_bool_defs(s, k - 1) + match s[k - 1] {
            SsaInstruction::ConstBool { dest, value } => seq![(dest, value)],
            SsaInstruction::LoadBool { dest, value } => seq![(dest, value)],
            _ => Seq::<(SsaReg, bool)>::empty(),
        }
    }
}

/// The boolean constants that the first `i` blocks define, in order.
pub open spec fn bool_defs(e: Seq<(BlockId, SsaBasicBlock)>, i: int) -> Seq<(SsaReg, bool)>
    decreases i,
{
    if i <= 0 {
        Seq::empty()
    } else {
        bool_defs(e, i - 1) + instr_bool_defs(e[i - 1].1.instructions@, e[i - 1].1.instructions@.len() as int)
    }
}

/// The value of the last definition of `r` in `s`.
pub open spec fn last_bool(s: Seq<(SsaReg, bool)>, r: SsaReg) -> Option<bool>
    decreases s.len(),
{
    if s.len() == 0 {
        None
    } else if s.last().0 == r {
        Some(s.last().1)
    } else {
        last_bool(s.drop_last(), r)
    }
}

/// The boolean constant register `r` holds, by its last definition.
pub open spec fn const_bool_of(g: SsaCFG, r: SsaReg) -> Option<bool> {
    last_bool(bool_defs(g.blocks.entries@, g.blocks.entries@.len() as int), r)
}

/// How a branch folds: to a jump to the first block, cutting the edge to
/// the second when there is one. A branch whose arms agree folds with no
/// cut; one whose condition is a known constant folds to the taken arm and
/// cuts the other.
pub open spec fn branch_fold(g: SsaCFG, t: SsaTerminator) -> Option<(BlockId, Option<BlockId>)> {
    match t {
        SsaTerminator::Branch { cond, then_block, else_block } => if then_block == else_block {
            Some((then_block, None))
        } else {
            match const_bool_of(g, cond) {
                Some(v) => if v {
                    Some((then_block, Some(else_block)))
                } else {
                    Some((else_block, Some(then_block)))
                },
                None => None,
            }
        },
        _ => None,
    }
}

/// The edge from `p` into `k` was a branch arm that folding cut.
pub open spec fn dead_edge(g: SsaCFG, p: BlockId, k: BlockId) -> bool {
    g.blocks.has(p) && branch_fold(g, g.blocks.at(p).terminator) == Some(((branch_fold(g, g.blocks.at(p).terminator)).unwrap().0, Some(k)))
}

pub open spec fn keeps_live_input(g: SsaCFG, k: BlockId) -> spec_fn((BlockId, SsaReg)) -> bool {
    |x: (BlockId, SsaReg)| !dead_edge(g, x.0, k)
}

/// The terminator after folding.
pub open spec fn folded_term(g: SsaCFG, t: SsaTerminator) -> SsaTerminator {
    match branch_fold(g, t) {
        Some((x, _)) => SsaTerminator::Jump { target: x },
        None => t,
    }
}

/// `h` is `g` with every foldable branch folded, and the phi inputs that
/// came over cut arms dropped.
pub open spec fn branches_folded(g: SsaCFG, h: SsaCFG) -> bool {
    let e = g.blocks.entries@;
    &&& h.entry_block == g.entry_block
    &&& h.original_pc_to_block_id == g.original_pc_to_block_id
    &&& h.blocks.entries@.len() == e.len()
    &&& forall|i: int| 0 <= i < e.len() ==> {
        let (k, a) = #[trigger] e[i];
        let (k2, b) = h.blocks.entries@[i];
        &&& k2 == k
        &&& phis_filtered(SsaBasicBlock { terminator: folded_term(g, a.terminator), ..a }, b, keeps_live_input(g, k))
    }
}

/// Some branch folds.
pub open spec fn has_foldable_branch(g: SsaCFG) -> bool {
    exists|i: int| 0 <= i < g.blocks.entries@.len() && (#[trigger] branch_fold(g, g.blocks.entries@[i].1.terminator)) is Some
}

/// How many blocks end in a branch.
pub open spec fn num_branches(e: Seq<(BlockId, SsaBasicBlock)>) -> nat
    decreases e.len(),
{
    if e.len() == 0 {
        0
    } else {
        num_branches(e.drop_last()) + if e.last().1.terminator is Branch {
            1nat
        } else {
            0nat
        }
    }
}

/// The boolean constants the graph defines, in order.
fn collect_bool_defs(ssa_cfg: &SsaCFG) -> (r: Vec<(SsaReg, bool)>)
    ensures
        r@ == bool_defs(ssa_cfg.blocks.entries@, ssa_cfg.blocks.entries@.len() as int),
{
    let ghost e = ssa_cfg.blocks.entries@;
    let mut r: Vec<(SsaReg, bool)> = Vec::new();
    let mut i: usize = 0;
    while i < ssa_cfg.blocks.entries.len()
        invariant
            e == ssa_cfg.blocks.entries@,
            i <= e.len(),
            r@ == bool_defs(e, i as int),
        decreases e.len() - i,
    {
        let blk = &ssa_cfg.blocks.entries[i].1;
        let ghost r0 = r@;
        let mut k: usize = 0;
        while k < blk.instructions.len()
            invariant
                k <= blk.instructions@.len(),
                r@ == r0 + instr_bool_defs(blk.instructions@, k as int),
            decreases blk.instructions@.len() - k,
        {
            match &blk.instructions[k] {
                SsaInstruction::ConstBool { dest, value } | SsaInstruction::LoadBool { dest, value } => {
                    r.push((*dest, *value));
                },
                _ => {},
            }
            k = k + 1;
            assert(r@ =~= r0 + instr_bool_defs(blk.instructions@, k as int));
        }
        i = i + 1;
        assert(r@ =~= bool_defs(e, i as int));
    }
    r
}

fn lookup_bool(defs: &Vec<(SsaReg, bool)>, r: SsaReg) -> (v: Option<bool>)
    ensures
        v == last_bool(defs@, r),
{
    let mut k: usize = defs.len();
    assert(defs@.subrange(0, k as int) =~= defs@);
    while k > 0
        invariant
            k <= defs@.len(),
            last_bool(defs@, r) == last_bool(defs@.subrange(0, k as int), r),
        decreases k,
    {
        let ghost s = defs@.subrange(0, k as int);
        assert(s.drop_last() =~= defs@.subrange(0, k - 1));
        if defs[k - 1].0 == r {
            return Some(defs[k - 1].1);
        }
        k = k - 1;
    }
    assert(defs@.subrange(0, 0) =~= Seq::<(SsaReg, bool)>::empty());
    None
}

proof fn lemma_last_bool_full(s: Seq<(SsaReg, bool)>, r: SsaReg)
    ensures
        last_bool(s, r) == last_bool(s.subrange(0, s.len() as int), r),
{
    assert(s.subrange(0, s.len() as int) =~= s);
}

fn fold_of(defs: &Vec<(SsaReg, bool)>, t: &SsaTerminator, Ghost(g): Ghost<SsaCFG>) -> (f: Option<(BlockId, Option<BlockId>)>)
    requires
        defs@ == bool_defs(g.blocks.entries@, g.blocks.entries@.len() as int),
    ensures
        f == branch_fold(g, *t),
{
    match t {
        SsaTerminator::Branch { cond, then_block, else_block } => {
            if *then_block == *else_block {
                Some((*then_block, None))
            } else {
                proof {
                    lemma_last_bool_full(defs@, *cond);
                }
                match lookup_bool(defs, *cond) {
                    Some(v) => if v {
                        Some((*then_block, Some(*else_block)))
                    } else {
                        Some((*else_block, Some(*then_block)))
                    },
                    None => None,
                }
            }
        },
        _ => None,
    }
}

proof fn lemma_num_branches_step(e: Seq<(BlockId, SsaBasicBlock)>, f: Seq<(BlockId, SsaBasicBlock)>)
    requires
        e.len() == f.len(),
        forall|i: int| 0 <= i < e.len() ==> ((#[trigger] f[i]).1.terminator is Branch ==> e[i].1.terminator is Branch),
    ensures
        num_branches(f) <= num_branches(e),
        (exists|i: int| 0 <= i < e.len() && (#[trigger] e[i]).1.terminator is Branch && !(f[i].1.terminator is Branch))
            ==> num_branches(f) < num_branches(e),
    decreases e.len(),
{
    if e.len() > 0 {
        let e2 = e.drop_last();
        let f2 = f.drop_last();
        assert forall|i: int| 0 <= i < e2.len() implies ((#[trigger] f2[i]).1.terminator is Branch ==> e2[i].1.terminator is Branch) by {
            assert(f2[i] == f[i] && e2[i] == e[i]);
        }
        lemma_num_branches_step(e2, f2);
        assert(f[f.len() - 1].1.terminator is Branch ==> e[e.len() - 1].1.terminator is Branch);
        if exists|i: int| 0 <= i < e.len() && (#[trigger] e[i]).1.terminator is Branch && !(f[i].1.terminator is Branch) {
            let i = choose|i: int| 0 <= i < e.len() && (#[trigger] e[i]).1.terminator is Branch && !(f[i].1.terminator is Branch);
            if i < e.len() - 1 {
                assert(e2[i] == e[i] && f2[i] == f[i]);
            }
        }
    }
}

/// Folding a branch: one whose condition is known to be `true` becomes a
/// jump to its then-block, one known to be `false` a jump to its
/// else-block, one whose two arms are the same block a jump to that block;
/// a branch on an unknown condition between two blocks stays as it is.
pub proof fn law_branch_folds_to_taken_arm(g: SsaCFG, h: SsaCFG, i: int, cond: SsaReg, then_block: BlockId, else_block: BlockId)
    requires
        branches_folded(g, h),
        0 <= i < g.blocks.entries@.len(),
        g.blocks.entries@[i].1.terminator == (SsaTerminator::Branch { cond, then_block, else_block }),
    ensures
        then_block == else_block ==> h.blocks.entries@[i].1.terminator == (SsaTerminator::Jump { target: then_block }),
        const_bool_of(g, cond) == Some(true) ==> h.blocks.entries@[i].1.terminator == (SsaTerminator::Jump { target: then_block }),
        const_bool_of(g, cond) == Some(false) ==> h.blocks.entries@[i].1.terminator == (SsaTerminator::Jump { target: else_block }),
        const_bool_of(g, cond) is None && then_block != else_block ==> h.blocks.entries@[i].1.terminator == g.blocks.entries@[i].1.terminator,
{
    let e = g.blocks.entries@;
    assert(e[i] == g.blocks.entries@[i]);
}

/// Folds every branch `branch_fold` resolves into a jump and drops the phi
/// inputs that came over the cut arms; says whether any branch folded.
fn fold_redundant_branches(ssa_cfg: &mut SsaCFG) -> (changed: bool)
    requires
        old(ssa_cfg).blocks.wf(),
    ensures
        branches_folded(*old(ssa_cfg), *final(ssa_cfg)),
        final(ssa_cfg).blocks.wf(),
        changed == has_foldable_branch(*old(ssa_cfg)),
        num_branches(final(ssa_cfg).blocks.entries@) <= num_branches(old(ssa_cfg).blocks.entries@),
        changed ==> num_branches(final(ssa_cfg).blocks.entries@) < num_branches(old(ssa_cfg).blocks.entries@),
        !changed ==> *final(ssa_cfg) == *old(ssa_cfg),
{
    let ghost g = *ssa_cfg;
    let ghost e = g.blocks.entries@;
    let n = ssa_cfg.blocks.entries.len();
    let defs = collect_bool_defs(ssa_cfg);
    let mut folds: Vec<Option<(BlockId, Option<BlockId>)>> = Vec::new();
    let mut i: usize = 0;
    while i < n
        invariant
            g == *ssa_cfg,
            e == g.blocks.entries@,
            n == e.len(),
            i <= n,
            defs@ == bool_defs(e, e.len() as int),
            folds@.len() == i,
            forall|q: int| 0 <= q < i ==> #[trigger] folds@[q] == branch_fold(g, e[q].1.terminator),
        decreases n - i,
    {
        folds.push(fold_of(&defs, &ssa_cfg.blocks.entries[i].1.terminator, Ghost(g)));
        i = i + 1;
    }
    let mut any = false;
    let mut i: usize = 0;
    while i < n
        invariant
            n == folds@.len(),
            i <= n,
            any == exists|q: int| 0 <= q < i && (#[trigger] folds@[q]) is Some,
        decreases n - i,
    {
        if folds[i].is_some() {
            any = true;
        }
        i = i + 1;
    }
    if !any {
        proof {
            assert forall|q: int| 0 <= q < n implies #[trigger] branch_fold(g, e[q].1.terminator) is None by {
                assert(folds@[q] is None);
            }
            assert forall|i: int| 0 <= i < e.len() implies {
                let (k, a) = #[trigger] e[i];
                let (k2, b) = g.blocks.entries@[i];
                &&& k2 == k
                &&& phis_filtered(SsaBasicBlock { terminator: folded_term(g, a.terminator), ..a }, b, keeps_live_input(g, k))
            } by {
                let (k, a) = e[i];
                assert forall|j: int| 0 <= j < a.phi_nodes@.len() implies (#[trigger] a.phi_nodes@[j]).incoming@
                    == a.phi_nodes@[j].incoming@.filter(keeps_live_input(g, k)) by {
                    let inc = a.phi_nodes@[j].incoming@;
                    assert forall|x: int| 0 <= x < inc.len() implies keeps_live_input(g, k)(#[trigger] inc[x]) by {
                        if dead_edge(g, inc[x].0, k) {
                            let p = g.blocks.pos(inc[x].0);
                            g.blocks.lemma_pos(p);
                            assert(branch_fold(g, e[p].1.terminator) is None);
                        }
                    }
                    lemma_filter_all(inc, keeps_live_input(g, k));
                }
            }
        }
        return false;
    }
    // the cut arms into each block
    let mut deads: Vec<Vec<BlockId>> = Vec::new();
    let mut i: usize = 0;
    while i < n
        invariant
            g == *ssa_cfg,
            g.blocks.wf(),
            e == g.blocks.entries@,
            n == e.len(),
            i <= n,
            folds@.len() == n,
            forall|q: int| 0 <= q < n ==> #[trigger] folds@[q] == branch_fold(g, e[q].1.terminator),
            deads@.len() == i,
            forall|q: int, p: BlockId| 0 <= q < i ==> (#[trigger] deads@[q]@.contains(p) <==> dead_edge(g, p, e[q].0)),
        decreases n - i,
    {
        let k = ssa_cfg.blocks.entries[i].0;
        let mut dead: Vec<BlockId> = Vec::new();
        let mut q: usize = 0;
        while q < n
            invariant
                g == *ssa_cfg,
                e == g.blocks.entries@,
                n == e.len(),
                q <= n,
                folds@.len() == n,
                forall|q: int| 0 <= q < n ==> #[trigger] folds@[q] == branch_fold(g, e[q].1.terminator),
                forall|p: BlockId| #[trigger] dead@.contains(p) <==> exists|q2: int| 0 <= q2 < q && (#[trigger] e[q2]).0 == p
                    && folds@[q2] is Some && folds@[q2].unwrap().1 == Some(k),
            decreases n - q,
        {
            let ghost d0 = dead@;
            let hit = match folds[q] {
                Some((_, Some(d))) => d == k,
                _ => false,
            };
            let p = ssa_cfg.blocks.entries[q].0;
            if hit {
                dead.push(p);
            }
            proof {
                assert forall|x: BlockId| #[trigger] dead@.contains(x) <==> exists|q2: int| 0 <= q2 < q + 1 && (#[trigger] e[q2]).0 == x
                    && folds@[q2] is Some && folds@[q2].unwrap().1 == Some(k) by {
                    if dead@.contains(x) && !d0.contains(x) {
                        let j = choose|j: int| 0 <= j < dead@.len() && dead@[j] == x;
                        if j < d0.len() {
                            assert(d0[j] == x);
                        }
                        assert(e[q as int].0 == x);
                    }
                    if d0.contains(x) {
                        let j = choose|j: int| 0 <= j < d0.len() && d0[j] == x;
                        assert(dead@[j] == x);
                    }
                    if exists|q2: int| 0 <= q2 < q + 1 && (#[trigger] e[q2]).0 == x && folds@[q2] is Some && folds@[q2].unwrap().1 == Some(k) {
                        let q2 = choose|q2: int| 0 <= q2 < q + 1 && (#[trigger] e[q2]).0 == x && folds@[q2] is Some && folds@[q2].unwrap().1 == Some(k);
                        if q2 == q {
                            assert(dead@[dead@.len() - 1] == x);
                        }
                    }
                }
            }
            q = q + 1;
        }
        proof {
            assert forall|p: BlockId| #[trigger] dead@.contains(p) <==> dead_edge(g, p, k) by {
                if dead@.contains(p) {
                    let q2 = choose|q2: int| 0 <= q2 < n && (#[trigger] e[q2]).0 == p && folds@[q2] is Some && folds@[q2].unwrap().1 == Some(k);
                    g.blocks.lemma_pos(q2);
                }
                if dead_edge(g, p, k) {
                    let q2 = g.blocks.pos(p);
                    g.blocks.lemma_pos(q2);
                    assert(e[q2].0 == p);
                    assert(folds@[q2] is Some);
                }
            }
        }
        deads.push(dead);
        i = i + 1;
    }
    let mut rest: Vec<(BlockId, SsaBasicBlock)> = Vec::new();
    std::mem::swap(&mut rest, &mut ssa_cfg.blocks.entries);
    let mut out: Vec<(BlockId, SsaBasicBlock)> = Vec::new();
    let mut changed = false;
    let mut i: usize = 0;
    while i < n
        invariant
            e == g.blocks.entries@,
            n == e.len(),
            i <= n,
            folds@.len() == n,
            forall|q: int| 0 <= q < n ==> #[trigger] folds@[q] == branch_fold(g, e[q].1.terminator),
            deads@.len() == n,
            forall|q: int, p: BlockId| 0 <= q < n ==> (#[trigger] deads@[q]@.contains(p) <==> dead_edge(g, p, e[q].0)),
            ssa_cfg.entry_block == g.entry_block,
            ssa_cfg.original_pc_to_block_id == g.original_pc_to_block_id,
            rest@ == e.subrange(i as int, n as int),
            out@.len() == i,
            forall|q: int| 0 <= q < i ==> {
                let (k, a) = #[trigger] e[q];
                let (k2, b) = out@[q];
                &&& k2 == k
                &&& phis_filtered(SsaBasicBlock { terminator: folded_term(g, a.terminator), ..a }, b, keeps_live_input(g, k))
            },
            changed == exists|q: int| 0 <= q < i && (#[trigger] branch_fold(g, e[q].1.terminator)) is Some,
        decreases n - i,
    {
        let ghost r0 = rest@;
        let (k, mut blk) = rest.remove(0);
        proof {
            assert(r0[0] == e[i as int]);
            assert(rest@ =~= e.subrange(i + 1, n as int));
        }
        if let Some((x, _)) = folds[i] {
            blk.terminator = SsaTerminator::Jump { target: x };
            changed = true;
        }
        let ghost b0 = blk;
        let mut j: usize = 0;
        while j < blk.phi_nodes.len()
            invariant
                i < n,
                deads@.len() == n,
                blk.id == b0.id,
                blk.instructions == b0.instructions,
                blk.terminator == b0.terminator,
                blk.phi_nodes@.len() == b0.phi_nodes@.len(),
                j <= b0.phi_nodes@.len(),
                forall|q: int| j <= q < b0.phi_nodes@.len() ==> #[trigger] blk.phi_nodes@[q] == b0.phi_nodes@[q],
                forall|q: int| 0 <= q < j ==> {
                    let p = #[trigger] b0.phi_nodes@[q];
                    let p2 = blk.phi_nodes@[q];
                    p2.dest == p.dest && p2.original_reg == p.original_reg
                        && p2.incoming@ == p.incoming@.filter(|x: (BlockId, SsaReg)| !deads@[i as int]@.contains(x.0))
                },
            decreases b0.phi_nodes@.len() - j,
        {
            let ni = filter_incoming(&blk.phi_nodes[j].incoming, &deads[i]);
            blk.phi_nodes[j].incoming = ni;
            j = j + 1;
        }
        proof {
            let f1 = |x: (BlockId, SsaReg)| !deads@[i as int]@.contains(x.0);
            let f2 = keeps_live_input(g, e[i as int].0);
            assert(f1 =~= f2);
            let a = e[i as int].1;
            assert(phis_filtered(SsaBasicBlock { terminator: folded_term(g, a.terminator), ..a }, blk, f2));
        }
        let ghost o0 = out@;
        out.push((k, blk));
        proof {
            assert forall|q: int| 0 <= q < i + 1 implies {
                let (k, a) = #[trigger] e[q];
                let (k2, b) = out@[q];
                &&& k2 == k
                &&& phis_filtered(SsaBasicBlock { terminator: folded_term(g, a.terminator), ..a }, b, keeps_live_input(g, k))
            } by {
                if q < i {
                    assert(out@[q] == o0[q]);
                }
            }
        }
        i = i + 1;
    }
    proof {
        assert forall|a: int, b: int| 0 <= a < b < out@.len() implies (#[trigger] out@[a]).0 < (#[trigger] out@[b]).0 by {
            assert(e[a].0 < e[b].0);
        }
        assert forall|q: int| 0 <= q < n implies ((#[trigger] out@[q]).1.terminator is Branch ==> e[q].1.terminator is Branch) by {
            assert(e[q] == e[q]);
        }
        lemma_num_branches_step(e, out@);
        if changed {
            let q = choose|q: int| 0 <= q < n && (#[trigger] branch_fold(g, e[q].1.terminator)) is Some;
            assert(e[q].1.terminator is Branch && !(out@[q].1.terminator is Branch));
        }
    }
    ssa_cfg.blocks.entries = out;
    changed
}

/// The target of a jump.
pub open spec fn jump_target(t: SsaTerminator) -> Option<BlockId> {
    match t {
        SsaTerminator::Jump { target } => Some(target),
        _ => None,
    }
}

/// Block `i` can be routed past: it is neither the entry nor preserved, has
/// no phi nodes and no instructions, jumps to another block, has
/// predecessors, and none of them already has an edge to its target.
pub open spec fn bypassable(g: SsaCFG, i: int) -> bool {
    let (id, b) = g.blocks.entries@[i];
    let preds = preds_of(g, id);
    &&& id != g.entry_block
    &&& !preserved(g, id)
    &&& b.instructions@.len() == 0
    &&& b.phi_nodes@.len() == 0
    &&& jump_target(b.terminator) is Some
    &&& jump_target(b.terminator).unwrap() != id
    &&& preds.len() > 0
    &&& forall|k: int| 0 <= k < preds.len() ==> !preds_of(g, jump_target(b.terminator).unwrap()).contains(#[trigger] preds[k])
}

pub open spec fn swap_id(b: BlockId, from: BlockId, to: BlockId) -> BlockId {
    if b == from {
        to
    } else {
        b
    }
}

pub open spec fn swap_opt(o: Option<BlockId>, from: BlockId, to: BlockId) -> Option<BlockId> {
    match o {
        Some(b) => Some(swap_id(b, from, to)),
        None => None,
    }
}

/// `t2` is `t` with every edge into `from` sent to `to` instead.
pub open spec fn term_retargeted(t: SsaTerminator, t2: SsaTerminator, from: BlockId, to: BlockId) -> bool {
    match t {
        SsaTerminator::Jump { target } => t2 == (SsaTerminator::Jump { target: swap_id(target, from, to) }),
        SsaTerminator::Branch { cond, then_block, else_block } =>
            t2 == (SsaTerminator::Branch { cond, then_block: swap_id(then_block, from, to), else_block: swap_id(else_block, from, to) }),
        SsaTerminator::MatchEntropy { target, valid_block, decayed_block, pending_block, consumed_block } =>
            t2 == (SsaTerminator::MatchEntropy {
                target,
                valid_block: swap_opt(valid_block, from, to),
                decayed_block: swap_opt(decayed_block, from, to),
                pending_block: swap_opt(pending_block, from, to),
                consumed_block: swap_opt(consumed_block, from, to),
            }),
        SsaTerminator::Select { max_ms, cases, timeout_block } => match t2 {
            SsaTerminator::Select { max_ms: m2, cases: c2, timeout_block: tb2 } => m2 == max_ms
                && tb2 == swap_opt(timeout_block, from, to)
                && c2@.len() == cases@.len()
                && forall|k: int| 0 <= k < cases@.len() ==> #[trigger] c2@[k] == (SsaSelectCase {
                    chan_id: cases@[k].chan_id,
                    dest: cases@[k].dest,
                    target: if cases@[k].target == from as usize { to as usize } else { cases@[k].target },
                }),
            _ => false,
        },
        _ => t2 == t,
    }
}

/// The value of the first input of `s` that comes from `p`.
pub open spec fn first_from(s: Seq<(BlockId, SsaReg)>, p: BlockId) -> SsaReg
    decreases s.len(),
{
    if s.len() == 0 {
        SsaReg { reg: 0, version: 0 }
    } else if s[0].0 == p {
        s[0].1
    } else {
        first_from(s.drop_first(), p)
    }
}

pub open spec fn from_block(id: BlockId) -> spec_fn((BlockId, SsaReg)) -> bool {
    |x: (BlockId, SsaReg)| x.0 != id
}

/// `b` is phi node `a` with its input from `id` handed to each of `preds`.
pub open spec fn phi_rerouted(a: SsaPhiNode, b: SsaPhiNode, id: BlockId, preds: Seq<BlockId>) -> bool {
    &&& b.dest == a.dest
    &&& b.original_reg == a.original_reg
    &&& b.incoming@ == if exists|k: int| 0 <= k < a.incoming@.len() && (#[trigger] a.incoming@[k]).0 == id {
        a.incoming@.filter(from_block(id)) + preds.map_values(|p: BlockId| (p, first_from(a.incoming@, id)))
    } else {
        a.incoming@
    }
}

/// `b` is block `a` after routing past block `id` into `target`.
pub open spec fn block_rerouted(a: SsaBasicBlock, b: SsaBasicBlock, is_target: bool, id: BlockId, target: BlockId, preds: Seq<BlockId>) -> bool {
    &&& b.id == a.id
    &&& b.instructions == a.instructions
    &&& term_retargeted(a.terminator, b.terminator, id, target)
    &&& if is_target {
        &&& b.phi_nodes@.len() == a.phi_nodes@.len()
        &&& forall|j: int| 0 <= j < a.phi_nodes@.len() ==> phi_rerouted(#[trigger] a.phi_nodes@[j], b.phi_nodes@[j], id, preds)
    } else {
        b.phi_nodes == a.phi_nodes
    }
}

/// Routing past a block: a retargeted terminator has the same successors in
/// the same order, except that each edge into `from` now goes to `to`; so
/// no edge into `from` is left.
pub proof fn law_retarget_edges(t: SsaTerminator, t2: SsaTerminator, from: BlockId, to: BlockId)
    requires
        term_retargeted(t, t2, from, to),
        !(t is Select),
    ensures
        ssa_term_succs(t2) == ssa_term_succs(t).map_values(|b: BlockId| swap_id(b, from, to)),
        from != to ==> !ssa_term_succs(t2).contains(from),
{
    assert(ssa_term_succs(t2) =~= ssa_term_succs(t).map_values(|b: BlockId| swap_id(b, from, to)));
    if from != to && ssa_term_succs(t2).contains(from) {
        let k = choose|k: int| 0 <= k < ssa_term_succs(t2).len() && ssa_term_succs(t2)[k] == from;
        assert(ssa_term_succs(t2)[k] == swap_id(ssa_term_succs(t)[k], from, to));
    }
}

/// `h` is `g` with block `c` routed past: its predecessors jump to its
/// target, the target's phi inputs from it come from each predecessor, and
/// the block is gone.
pub open spec fn bypassed(g: SsaCFG, h: SsaCFG, c: int) -> bool {
    let e = g.blocks.entries@;
    let id = e[c].0;
    let target = jump_target(e[c].1.terminator).unwrap();
    let preds = preds_of(g, id);
    &&& h.entry_block == g.entry_block
    &&& h.original_pc_to_block_id == g.original_pc_to_block_id
    &&& h.blocks.entries@.len() == e.len() - 1
    &&& forall|q: int| 0 <= q < e.len() - 1 ==> {
        let src = if q < c { q } else { q + 1 };
        &&& (#[trigger] h.blocks.entries@[q]).0 == e[src].0
        &&& block_rerouted(e[src].1, h.blocks.entries@[q].1, e[src].0 == target, id, target, preds)
    }
}

fn retarget_term(t: &SsaTerminator, from: BlockId, to: BlockId) -> (t2: SsaTerminator)
    ensures
        term_retargeted(*t, t2, from, to),
{
    let sw = |b: BlockId| -> (r: BlockId)
        ensures
            r == swap_id(b, from, to),
    {
        if b == from {
            to
        } else {
            b
        }
    };
    let swo = |o: Option<BlockId>| -> (r: Option<BlockId>)
        ensures
            r == swap_opt(o, from, to),
    {
        match o {
            Some(b) => Some(if b == from { to } else { b }),
            None => None,
        }
    };
    match t {
        SsaTerminator::Jump { target } => SsaTerminator::Jump { target: sw(*target) },
        SsaTerminator::Branch { cond, then_block, else_block } =>
            SsaTerminator::Branch { cond: *cond, then_block: sw(*then_block), else_block: sw(*else_block) },
        SsaTerminator::MatchEntropy { target, valid_block, decayed_block, pending_block, consumed_block } =>
            SsaTerminator::MatchEntropy {
                target: *target,
                valid_block: swo(*valid_block),
                decayed_block: swo(*decayed_block),
                pending_block: swo(*pending_block),
                consumed_block: swo(*consumed_block),
            },
        SsaTerminator::Select { max_ms, cases, timeout_block } => {
            let mut c2: Vec<SsaSelectCase> = Vec::new();
            let mut k: usize = 0;
            while k < cases.len()
                invariant
                    k <= cases@.len(),
                    c2@.len() == k,
                    forall|q: int| 0 <= q < k ==> #[trigger] c2@[q] == (SsaSelectCase {
                        chan_id: cases@[q].chan_id,
                        dest: cases@[q].dest,
                        target: if cases@[q].target == from as usize { to as usize } else { cases@[q].target },
                    }),
                decreases cases@.len() - k,
            {
                let c = &cases[k];
                let nt: usize = if c.target == from as usize { to as usize } else { c.target };
                c2.push(SsaSelectCase { chan_id: c.chan_id.clone(), dest: c.dest, target: nt });
                k = k + 1;
            }
            SsaTerminator::Select { max_ms: *max_ms, cases: c2, timeout_block: swo(*timeout_block) }
        },
        SsaTerminator::Return { src } => SsaTerminator::Return { src: *src },
        SsaTerminator::Unreachable => SsaTerminator::Unreachable,
    }
}

/// The incoming list of phi node `a` after routing past `id`.
fn reroute_incoming(inc: &Vec<(BlockId, SsaReg)>, id: BlockId, preds: &Vec<BlockId>) -> (r: Vec<(BlockId, SsaReg)>)
    ensures
        r@ == if exists|k: int| 0 <= k < inc@.len() && (#[trigger] inc@[k]).0 == id {
            inc@.filter(from_block(id)) + preds@.map_values(|p: BlockId| (p, first_from(inc@, id)))
        } else {
            inc@
        },
{
    // the first input from `id`
    let mut found: Option<SsaReg> = None;
    let mut k: usize = 0;
    assert(inc@.subrange(0, inc@.len() as int) =~= inc@);
    while k < inc.len()
        invariant
            k <= inc@.len(),
            found is None ==> forall|q: int| 0 <= q < k ==> (#[trigger] inc@[q]).0 != id,
            found is Some ==> exists|q: int| 0 <= q < inc@.len() && (#[trigger] inc@[q]).0 == id,
            found is Some ==> found.unwrap() == first_from(inc@, id),
            found is None ==> first_from(inc@, id) == first_from(inc@.subrange(k as int, inc@.len() as int), id),
        decreases inc@.len() - k,
    {
        if found.is_none() {
            let ghost t = inc@.subrange(k as int, inc@.len() as int);
            assert(t[0] == inc@[k as int]);
            assert(t.drop_first() =~= inc@.subrange(k + 1, inc@.len() as int));
            if inc[k].0 == id {
                found = Some(inc[k].1);
            }
        }
        k = k + 1;
    }
    match found {
        None => {
            let mut r: Vec<(BlockId, SsaReg)> = Vec::new();
            let mut q: usize = 0;
            while q < inc.len()
                invariant
                    q <= inc@.len(),
                    r@ == inc@.subrange(0, q as int),
                decreases inc@.len() - q,
            {
                r.push(inc[q]);
                q = q + 1;
            }
            assert(inc@.subrange(0, inc@.len() as int) =~= inc@);
            r
        },
        Some(val) => {
            let ghost keep = from_block(id);
            let mut r: Vec<(BlockId, SsaReg)> = Vec::new();
            let mut q: usize = 0;
            while q < inc.len()
                invariant
                    keep == from_block(id),
                    q <= inc@.len(),
                    r@ == inc@.subrange(0, q as int).filter(keep),
                decreases inc@.len() - q,
            {
                proof {
                    reveal(Seq::filter);
                    assert(inc@.subrange(0, q + 1).drop_last() =~= inc@.subrange(0, q as int));
                }
                if inc[q].0 != id {
                    r.push(inc[q]);
                }
                q = q + 1;
            }
            assert(inc@.subrange(0, inc@.len() as int) =~= inc@);
            let ghost f = r@;
            let mut q: usize = 0;
            while q < preds.len()
                invariant
                    q <= preds@.len(),
                    r@ == f + preds@.subrange(0, q as int).map_values(|p: BlockId| (p, val)),
                decreases preds@.len() - q,
            {
                r.push((preds[q], val));
                q = q + 1;
                assert(r@ =~= f + preds@.subrange(0, q as int).map_values(|p: BlockId| (p, val)));
            }
            assert(preds@.subrange(0, preds@.len() as int) =~= preds@);
            r
        },
    }
}

/// Some block can be routed past.
pub open spec fn has_bypassable(g: SsaCFG) -> bool {
    exists|c: int| 0 <= c < g.blocks.entries@.len() && #[trigger] bypassable(g, c)
}

/// Whether `b` occurs in `v`.
fn ids_have(v: &Vec<BlockId>, b: BlockId) -> (r: bool)
    ensures
        r == v@.contains(b),
{
    let mut i: usize = 0;
    while i < v.len()
        invariant
            i <= v@.len(),
            forall|j: int| 0 <= j < i ==> v@[j] != b,
        decreases v@.len() - i,
    {
        if v[i] == b {
            return true;
        }
        i = i + 1;
    }
    false
}

/// Whether block `i` can be routed past, with its predecessors.
fn check_bypass(ssa_cfg: &SsaCFG, preserved_ids: &Vec<BlockId>, i: usize) -> (r: Option<Vec<BlockId>>)
    requires
        i < ssa_cfg.blocks.entries@.len(),
        forall|b: BlockId| preserved_ids@.contains(b) <==> preserved(*ssa_cfg, b),
    ensures
        r is Some <==> bypassable(*ssa_cfg, i as int),
        r is Some ==> r.unwrap()@ == preds_of(*ssa_cfg, ssa_cfg.blocks.entries@[i as int].0),
{
    let id = ssa_cfg.blocks.entries[i].0;
    let blk = &ssa_cfg.blocks.entries[i].1;
    if id == ssa_cfg.entry_block || ids_have(preserved_ids, id) || blk.instructions.len() != 0 || blk.phi_nodes.len() != 0 {
        return None;
    }
    let target = match &blk.terminator {
        SsaTerminator::Jump { target } => *target,
        _ => {
            return None;
        },
    };
    assert(jump_target(blk.terminator) == Some(target));
    if id == target {
        return None;
    }
    let preds = predecessors_of(ssa_cfg, id);
    if preds.len() == 0 {
        return None;
    }
    let target_preds = predecessors_of(ssa_cfg, target);
    let mut k: usize = 0;
    while k < preds.len()
        invariant
            i < ssa_cfg.blocks.entries@.len(),
            id == ssa_cfg.blocks.entries@[i as int].0,
            *blk == ssa_cfg.blocks.entries@[i as int].1,
            jump_target(blk.terminator) == Some(target),
            preds@ == preds_of(*ssa_cfg, id),
            target_preds@ == preds_of(*ssa_cfg, target),
            k <= preds@.len(),
            forall|q: int| 0 <= q < k ==> !target_preds@.contains(#[trigger] preds@[q]),
        decreases preds@.len() - k,
    {
        if ids_have(&target_preds, preds[k]) {
            proof {
                let pk = preds_of(*ssa_cfg, id)[k as int];
                assert(preds_of(*ssa_cfg, jump_target(blk.terminator).unwrap()).contains(pk));
            }
            return None;
        }
        k = k + 1;
    }
    Some(preds)
}

/// Routes control past the first block that `bypassable` admits; says
/// whether there was one.
fn bypass_empty_jump_blocks(ssa_cfg: &mut SsaCFG) -> (changed: bool)
    requires
        old(ssa_cfg).blocks.wf(),
    ensures
        final(ssa_cfg).blocks.wf(),
        changed == has_bypassable(*old(ssa_cfg)),
        !changed ==> *final(ssa_cfg) == *old(ssa_cfg),
        changed ==> exists|c: int| 0 <= c < old(ssa_cfg).blocks.entries@.len() && #[trigger] bypassable(*old(ssa_cfg), c)
            && (forall|c2: int| 0 <= c2 < c ==> !bypassable(*old(ssa_cfg), c2))
            && bypassed(*old(ssa_cfg), *final(ssa_cfg), c),
        changed ==> final(ssa_cfg).blocks.entries@.len() < old(ssa_cfg).blocks.entries@.len(),
{
    let ghost g = *ssa_cfg;
    let ghost e = g.blocks.entries@;
    let n = ssa_cfg.blocks.entries.len();
    let preserved_ids = get_preserved_blocks(ssa_cfg);
    let mut i: usize = 0;
    while i < n
        invariant
            g == *ssa_cfg,
            g == *old(ssa_cfg),
            g.blocks.wf(),
            e == g.blocks.entries@,
            n == e.len(),
            i <= n,
            forall|b: BlockId| preserved_ids@.contains(b) <==> preserved(g, b),
            forall|c2: int| 0 <= c2 < i ==> !#[trigger] bypassable(g, c2),
        decreases n - i,
    {
        match check_bypass(ssa_cfg, &preserved_ids, i) {
            Some(preds) => {
                let id = ssa_cfg.blocks.entries[i].0;
                let target = match &ssa_cfg.blocks.entries[i].1.terminator {
                    SsaTerminator::Jump { target } => *target,
                    _ => id,
                };
                assert(jump_target(e[i as int].1.terminator) == Some(target));
                let tpos = ssa_cfg.blocks.find(target);
                // every edge into `id` now leads to `target`
                let mut q: usize = 0;
                while q < n
                    invariant
                        e == g.blocks.entries@,
                        n == e.len(),
                        i < n,
                        q <= n,
                        id == e[i as int].0,
                        ssa_cfg.entry_block == g.entry_block,
                        ssa_cfg.original_pc_to_block_id == g.original_pc_to_block_id,
                        ssa_cfg.blocks.entries@.len() == n,
                        forall|q2: int| 0 <= q2 < n ==> (#[trigger] ssa_cfg.blocks.entries@[q2]).0 == e[q2].0
                            && ssa_cfg.blocks.entries@[q2].1.id == e[q2].1.id
                            && ssa_cfg.blocks.entries@[q2].1.instructions == e[q2].1.instructions
                            && ssa_cfg.blocks.entries@[q2].1.phi_nodes == e[q2].1.phi_nodes,
                        forall|q2: int| 0 <= q2 < q ==> term_retargeted(e[q2].1.terminator, (#[trigger] ssa_cfg.blocks.entries@[q2]).1.terminator, id, target),
                        forall|q2: int| q <= q2 < n ==> (#[trigger] ssa_cfg.blocks.entries@[q2]).1.terminator == e[q2].1.terminator,
                    decreases n - q,
                {
                    let t2 = retarget_term(&ssa_cfg.blocks.entries[q].1.terminator, id, target);
                    ssa_cfg.blocks.entries[q].1.terminator = t2;
                    q = q + 1;
                }
                // the target's phi inputs from `id` come from each predecessor
                if let Some(tp) = tpos {
                    let ghost before = ssa_cfg.blocks.entries@;
                    let mut j: usize = 0;
                    while j < ssa_cfg.blocks.entries[tp].1.phi_nodes.len()
                        invariant
                            tp < n,
                            before.len() == n,
                            ssa_cfg.entry_block == g.entry_block,
                            ssa_cfg.original_pc_to_block_id == g.original_pc_to_block_id,
                            ssa_cfg.blocks.entries@.len() == n,
                            forall|q2: int| 0 <= q2 < n && q2 != tp ==> #[trigger] ssa_cfg.blocks.entries@[q2] == before[q2],
                            ssa_cfg.blocks.entries@[tp as int].0 == before[tp as int].0,
                            ssa_cfg.blocks.entries@[tp as int].1.id == before[tp as int].1.id,
                            ssa_cfg.blocks.entries@[tp as int].1.instructions == before[tp as int].1.instructions,
                            ssa_cfg.blocks.entries@[tp as int].1.terminator == before[tp as int].1.terminator,
                            ssa_cfg.blocks.entries@[tp as int].1.phi_nodes@.len() == before[tp as int].1.phi_nodes@.len(),
                            j <= before[tp as int].1.phi_nodes@.len(),
                            forall|j2: int| j <= j2 < before[tp as int].1.phi_nodes@.len() ==> #[trigger] ssa_cfg.blocks.entries@[tp as int].1.phi_nodes@[j2] == before[tp as int].1.phi_nodes@[j2],
                            forall|j2: int| 0 <= j2 < j ==> phi_rerouted(before[tp as int].1.phi_nodes@[j2], #[trigger] ssa_cfg.blocks.entries@[tp as int].1.phi_nodes@[j2], id, preds@),
                        decreases before[tp as int].1.phi_nodes@.len() - j,
                    {
                        let ni = reroute_incoming(&ssa_cfg.blocks.entries[tp].1.phi_nodes[j].incoming, id, &preds);
                        ssa_cfg.blocks.entries[tp].1.phi_nodes[j].incoming = ni;
                        j = j + 1;
                    }
                }
                let ghost pre = ssa_cfg.blocks.entries@;
                proof {
                    assert forall|q2: int| 0 <= q2 < n implies {
                        &&& (#[trigger] pre[q2]).0 == e[q2].0
                        &&& block_rerouted(e[q2].1, pre[q2].1, e[q2].0 == target, id, target, preds@)
                    } by {
                        match tpos {
                            Some(tp) => {
                                if q2 == tp {
                                    assert(e[q2].0 == target);
                                } else {
                                    g.blocks.lemma_pos(q2);
                                    assert(e[q2].0 != target);
                                }
                            },
                            None => {
                                assert(e[q2].0 != target);
                            },
                        }
                    }
                }
                ssa_cfg.blocks.entries.remove(i);
                proof {
                    let h = *ssa_cfg;
                    assert(h.blocks.entries@ == pre.remove(i as int));
                    assert forall|q: int| 0 <= q < n - 1 implies {
                        let src = if q < i { q } else { q + 1 };
                        &&& (#[trigger] h.blocks.entries@[q]).0 == e[src].0
                        &&& block_rerouted(e[src].1, h.blocks.entries@[q].1, e[src].0 == target, id, target, preds@)
                    } by {
                        let src = if q < i { q } else { q + 1 };
                        assert(h.blocks.entries@[q] == pre[src]);
                    }
                    assert(h.entry_block == g.entry_block);
                    assert(h.original_pc_to_block_id == g.original_pc_to_block_id);
                    assert(h.blocks.entries@.len() == e.len() - 1);
                    assert(preds@ == preds_of(g, e[i as int].0));
                    assert(jump_target(e[i as int].1.terminator).unwrap() == target);
                    assert(bypassed(g, h, i as int));
                    assert forall|a: int, b: int| 0 <= a < b < h.blocks.entries@.len() implies
                        (#[trigger] h.blocks.entries@[a]).0 < (#[trigger] h.blocks.entries@[b]).0 by {
                        let sa = if a < i { a } else { a + 1 };
                        let sb = if b < i { b } else { b + 1 };
                        assert(h.blocks.entries@[a] == pre[sa] && h.blocks.entries@[b] == pre[sb]);
                        assert(e[sa].0 < e[sb].0);
                    }
                    assert(bypassable(g, i as int));
                }
                return true;
            },
            None => {},
        }
        i = i + 1;
    }
    false
}

/// `b` is `a` with the first block that can be routed past routed past, or
/// `a` itself when there is none.
pub open spec fn bypass_step(a: SsaCFG, b: SsaCFG) -> bool {
    ||| !has_bypassable(a) && b == a
    ||| exists|c: int| 0 <= c < a.blocks.entries@.len() && #[trigger] bypassable(a, c)
        && (forall|c2: int| 0 <= c2 < c ==> !bypassable(a, c2)) && bypassed(a, b, c)
}

/// One round of simplification: unreachable blocks go, fixed branches are
/// folded, then the first empty jump block is routed past.
pub open spec fn simplify_round(a: SsaCFG, b: SsaCFG) -> bool {
    exists|s1: SsaCFG, s2: SsaCFG| #[trigger] unreachable_pruned(a, s1) && #[trigger] branches_folded(s1, s2) && bypass_step(s2, b)
}

/// `gs` runs from `g` to `h`, each graph one round of simplification of the
/// one before.
pub open spec fn simplify_run(g: SsaCFG, h: SsaCFG, gs: Seq<SsaCFG>) -> bool {
    &&& gs.len() >= 1
    &&& gs[0] == g
    &&& gs.last() == h
    &&& forall|i: int| 0 <= i < gs.len() - 1 ==> #[trigger] simplify_round(gs[i], gs[i + 1])
}

/// `h` is what simplification makes of `g`: rounds until one changes
/// nothing, leaving no unreachable block, no fixed branch and no block to
/// route past.
pub open spec fn simplified(g: SsaCFG, h: SsaCFG) -> bool {
    &&& exists|gs: Seq<SsaCFG>| #[trigger] simplify_run(g, h, gs)
    &&& !has_unreachable(h)
    &&& !has_foldable_branch(h)
    &&& !has_bypassable(h)
}

/// Simplifies the control flow until nothing changes: removes unreachable
/// blocks, folds fixed branches, routes past empty jump blocks.
pub struct CfgSimplificationPass;

impl CfgSimplificationPass {
    /// Runs the three simplifications until none applies; says whether any
    /// did. The result has no unreachable block, no foldable branch and no
    /// block to route past.
    pub fn simplify(ssa_cfg: &mut SsaCFG) -> (changed: bool)
        requires
            old(ssa_cfg).blocks.wf(),
        ensures
            final(ssa_cfg).blocks.wf(),
            changed == (has_unreachable(*old(ssa_cfg)) || has_foldable_branch(*old(ssa_cfg)) || has_bypassable(*old(ssa_cfg))),
            !changed ==> *final(ssa_cfg) == *old(ssa_cfg),
            simplified(*old(ssa_cfg), *final(ssa_cfg)),
    {
        let ghost g0 = *ssa_cfg;
        let mut changed = false;
        let ghost mut started = false;
        let ghost mut gs: Seq<SsaCFG> = seq![*ssa_cfg];
        loop
            invariant
                ssa_cfg.blocks.wf(),
                g0 == *old(ssa_cfg),
                simplify_run(g0, *ssa_cfg, gs),
                !started ==> *ssa_cfg == g0 && !changed,
                started ==> changed == (has_unreachable(g0) || has_foldable_branch(g0) || has_bypassable(g0)),
                started ==> changed,
            decreases ssa_cfg.blocks.entries@.len(), num_branches(ssa_cfg.blocks.entries@),
        {
            let ghost n0 = ssa_cfg.blocks.entries@.len();
            let ghost b0 = num_branches(ssa_cfg.blocks.entries@);
            let ghost s0 = *ssa_cfg;
            let r1 = eliminate_unreachable_blocks(ssa_cfg);
            let ghost s1 = *ssa_cfg;
            let r2 = fold_redundant_branches(ssa_cfg);
            let ghost s2 = *ssa_cfg;
            let r3 = bypass_empty_jump_blocks(ssa_cfg);
            let local = r1 || r2 || r3;
            if local {
                changed = true;
            }
            proof {
                assert(bypass_step(s2, *ssa_cfg));
                assert(simplify_round(s0, *ssa_cfg));
                let gs0 = gs;
                gs = gs.push(*ssa_cfg);
                assert forall|i: int| 0 <= i < gs.len() - 1 implies #[trigger] simplify_round(gs[i], gs[i + 1]) by {
                    if i < gs0.len() - 1 {
                        assert(gs[i] == gs0[i] && gs[i + 1] == gs0[i + 1]);
                    }
                }
            }
            proof {
                if !started {
                    assert(s0 == g0);
                    if !r1 {
                        assert(s1 == s0);
                        if !r2 {
                            assert(s2 == s0);
                            if !r3 {
                                assert(*ssa_cfg == s2);
                            }
                        }
                    }
                    assert(local == (has_unreachable(g0) || has_foldable_branch(g0) || has_bypassable(g0)));
                    assert(changed == local);
                }
                started = true;
            }
            if !local {
                return changed;
            }
            proof {
                if r1 || r3 {
                    assert(ssa_cfg.blocks.entries@.len() < n0);
                } else {
                    assert(ssa_cfg.blocks.entries@.len() == n0);
                    assert(num_branches(ssa_cfg.blocks.entries@) < b0);
                }
            }
        }
    }
}

impl OptimizationPass for CfgSimplificationPass {
    fn name(&self) -> (r: &'static str)
        ensures
            r@ == "CfgSimplification"@,
    {
        "CfgSimplification"
    }

    open spec fn step(&self, before: SsaCFG, after: SsaCFG, globals: Set<u32>, is_routine: bool, changed: bool) -> bool {
        &&& changed == (has_unreachable(before) || has_foldable_branch(before) || has_bypassable(before))
        &&& !changed ==> after == before
        &&& simplified(before, after)
    }

    fn run(&self, ssa_cfg: &mut SsaCFG, globally_used_regs: &HashSet<u32>, is_routine: bool) -> (changed: bool) {
        CfgSimplificationPass::simplify(ssa_cfg)
    }
}

} // verus!
