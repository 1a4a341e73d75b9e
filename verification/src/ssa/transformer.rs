//! Conversion of control-flow graphs to SSA form: the edge lists of the
//! graph, a depth-first post order, immediate dominators, dominance
//! frontiers, phi placement, and renaming along the dominator tree.
//!
//! Blocks are handled by their position in the graph's block map, which
//! lists them in increasing id order.

use vstd::prelude::*;
use crate::ssa::unique::{ssa_instr_defs, ssa_term_defs, instrs_defs, phi_defs, block_defs_of, all_distinct, fresh_in, grows, single_assignment, lemma_grows_trans, lemma_fresh_concat, lemma_define_fresh, lemma_renamed_fresh, lemma_define_cases_fresh, defs_counted, defs_unique, lemma_counted_grows, lemma_add_block, lemma_instrs_defs_prefix};
use crate::ir::{Reg, IrSelectCase};
use crate::instruction::Instruction;
use crate::blockmap::{BlockId, BlockMap};
use crate::cfg::{CFG, BasicBlock, Terminator, SelectCase};
use crate::ssa::{SsaReg, SsaPhiNode, SsaBasicBlock, SsaTerminator, SsaSelectCase, SsaCFG};
use crate::ssa::instruction::SsaInstruction;
use crate::ssa::sequence::{define_all, occurrences, instrs_dest_nums, instr_dest_nums, syscall_defines, lemma_define_all_concat, lemma_define_all_stack, lemma_undefine_all_stack, lemma_term_defines, lemma_dest_nums_regs, lemma_renamed_defines, lemma_occurrences_concat};
use crate::ssa::rename::{VersionTable, VersionState, read_reg, define, undefine, stack_of, fresh_reg, define_cases, version_room, count_of, renamed, defs_of, lemma_renamed_counts};

verus! {

pub open spec fn opt_seq(o: Option<BlockId>) -> Seq<BlockId> {
    match o {
        Some(b) => seq![b],
        None => Seq::empty(),
    }
}

/// The blocks a terminator can pass control to, in the order it lists them.
pub open spec fn term_targets(t: Terminator) -> Seq<BlockId> {
    match t {
        Terminator::Jump { target } => seq![target],
        Terminator::Branch { then_block, else_block, .. } => seq![then_block, else_block],
        Terminator::MatchEntropy { valid_block, decayed_block, pending_block, consumed_block, .. } =>
            opt_seq(valid_block) + opt_seq(decayed_block) + opt_seq(pending_block) + opt_seq(consumed_block),
        Terminator::Select { cases, timeout_block, .. } =>
            cases@.map_values(|c: SelectCase| c.target_block) + opt_seq(timeout_block),
        _ => Seq::empty(),
    }
}

/// The blocks an instruction inside a block can pass control to: the body
/// and the end of a relativistic block, a watchdog's recovery target, a
/// speculation's fallback.
pub open spec fn side_targets(i: Instruction, pcmap: Seq<BlockId>) -> Seq<BlockId> {
    match i {
        Instruction::RelativisticBlock { block_pc, block_len, .. } =>
            seq![pcmap[block_pc as int], pcmap[block_pc + block_len]],
        Instruction::Watchdog { recovery_jump: Some(t), .. } => seq![pcmap[t as int]],
        Instruction::Speculate { fallback_target, .. } => seq![pcmap[fallback_target as int]],
        Instruction::EndSpeculate { fallback_target, .. } => seq![pcmap[fallback_target as int]],
        _ => Seq::empty(),
    }
}

/// The instruction indices that `side_targets` looks up lie in the map.
pub open spec fn side_pcs_ok(i: Instruction, n: int) -> bool {
    match i {
        Instruction::RelativisticBlock { block_pc, block_len, .. } => block_pc + block_len < n,
        Instruction::Watchdog { recovery_jump: Some(t), .. } => t < n,
        Instruction::Speculate { fallback_target, .. } => fallback_target < n,
        Instruction::EndSpeculate { fallback_target, .. } => fallback_target < n,
        _ => true,
    }
}

pub open spec fn add_new(s: Seq<BlockId>, x: BlockId) -> Seq<BlockId> {
    if s.contains(x) {
        s
    } else {
        s.push(x)
    }
}

pub open spec fn add_all_new(s: Seq<BlockId>, xs: Seq<BlockId>) -> Seq<BlockId>
    decreases xs.len(),
{
    if xs.len() == 0 {
        s
    } else {
        add_new(add_all_new(s, xs.drop_last()), xs.last())
    }
}

pub open spec fn succ_ids_upto(b: BasicBlock, pcmap: Seq<BlockId>, k: int) -> Seq<BlockId>
    decreases k,
{
    if k <= 0 {
        term_targets(b.terminator)
    } else {
        add_all_new(succ_ids_upto(b, pcmap, k - 1), side_targets(b.instructions@[k - 1], pcmap))
    }
}

/// Successors of a block: its terminator's targets, then each side target
/// of its instructions that is not listed yet.
pub open spec fn succ_ids(b: BasicBlock, pcmap: Seq<BlockId>) -> Seq<BlockId> {
    succ_ids_upto(b, pcmap, b.instructions@.len() as int)
}

/// A graph whose edges can be collected: its block map is sorted and every
/// side target of an instruction lies in the instruction map.
pub open spec fn cfg_pcs_ok(cfg: CFG) -> bool {
    let es = cfg.blocks.entries@;
    let pcmap = cfg.original_pc_to_block_id@;
    &&& cfg.blocks.wf()
    &&& es.len() < usize::MAX
    &&& forall|i: int, j: int|
        0 <= i < es.len() && 0 <= j < es[i].1.instructions@.len() ==> side_pcs_ok(
            #[trigger] es[i].1.instructions@[j],
            pcmap.len() as int,
        )
}

/// A graph the conversion accepts whatever its reachable part:
/// `cfg_pcs_ok`, and every edge leads to a block of the graph.
pub open spec fn cfg_ok(cfg: CFG) -> bool {
    let es = cfg.blocks.entries@;
    let pcmap = cfg.original_pc_to_block_id@;
    &&& cfg_pcs_ok(cfg)
    &&& forall|i: int, k: int|
        0 <= i < es.len() && 0 <= k < succ_ids(es[i].1, pcmap).len() ==> cfg.blocks.has(
            #[trigger] succ_ids(es[i].1, pcmap)[k],
        )
}

/// The positions of those of `ids` that are blocks of `cfg`, in order.
pub open spec fn present_pos(cfg: CFG, ids: Seq<BlockId>) -> Seq<usize>
    decreases ids.len(),
{
    if ids.len() == 0 {
        Seq::empty()
    } else {
        present_pos(cfg, ids.drop_last()) + if cfg.blocks.has(ids.last()) {
            seq![cfg.blocks.pos(ids.last()) as usize]
        } else {
            Seq::<usize>::empty()
        }
    }
}

/// Successor positions of the block at position `i`: an edge to an id that
/// is no block of the graph has none.
pub open spec fn succ_pos(cfg: CFG, i: int) -> Seq<usize> {
    present_pos(cfg, succ_ids(cfg.blocks.entries@[i].1, cfg.original_pc_to_block_id@))
}

/// `src` once for each occurrence of `t` in `ss`.
pub open spec fn into_from(ss: Seq<usize>, src: usize, t: usize) -> Seq<usize>
    decreases ss.len(),
{
    if ss.len() == 0 {
        Seq::empty()
    } else {
        into_from(ss.drop_last(), src, t) + if ss.last() == t {
            seq![src]
        } else {
            Seq::<usize>::empty()
        }
    }
}

/// The predecessors of `t` among the first `k` blocks, one entry per edge,
/// in block order.
pub open spec fn preds_upto(succ: Seq<Seq<usize>>, t: usize, k: int) -> Seq<usize>
    decreases k,
{
    if k <= 0 {
        Seq::empty()
    } else {
        preds_upto(succ, t, k - 1) + into_from(succ[k - 1], (k - 1) as usize, t)
    }
}

pub open spec fn view_lists(v: Seq<Vec<usize>>) -> Seq<Seq<usize>> {
    v.map_values(|x: Vec<usize>| x@)
}

/// Appends `x` unless it is already listed.
pub(crate) fn push_new(v: &mut Vec<BlockId>, x: BlockId)
    ensures
        final(v)@ == add_new(old(v)@, x),
{
    let mut i: usize = 0;
    while i < v.len()
        invariant
            i <= v@.len(),
            forall|j: int| 0 <= j < i ==> v@[j] != x,
        decreases v@.len() - i,
    {
        if v[i] == x {
            assert(v@.contains(x));
            return;
        }
        i = i + 1;
    }
    assert(!v@.contains(x));
    v.push(x);
}

fn push_opt(v: &mut Vec<BlockId>, o: Option<BlockId>)
    ensures
        final(v)@ == old(v)@ + opt_seq(o),
{
    match o {
        Some(b) => {
            v.push(b);
        },
        None => {
            assert(old(v)@ + opt_seq(o) =~= old(v)@);
        },
    }
}

fn term_target_list(t: &Terminator) -> (r: Vec<BlockId>)
    ensures
        r@ == term_targets(*t),
{
    let mut r: Vec<BlockId> = Vec::new();
    match t {
        Terminator::Jump { target } => {
            r.push(*target);
            assert(r@ =~= term_targets(*t));
        },
        Terminator::Branch { then_block, else_block, .. } => {
            r.push(*then_block);
            r.push(*else_block);
            assert(r@ =~= term_targets(*t));
        },
        Terminator::MatchEntropy { valid_block, decayed_block, pending_block, consumed_block, .. } => {
            push_opt(&mut r, *valid_block);
            push_opt(&mut r, *decayed_block);
            push_opt(&mut r, *pending_block);
            push_opt(&mut r, *consumed_block);
            assert(r@ =~= term_targets(*t));
        },
        Terminator::Select { cases, timeout_block, .. } => {
            let mut i: usize = 0;
            while i < cases.len()
                invariant
                    i <= cases@.len(),
                    r@ == cases@.subrange(0, i as int).map_values(|c: SelectCase| c.target_block),
                decreases cases@.len() - i,
            {
                r.push(cases[i].target_block);
                i = i + 1;
                assert(r@ =~= cases@.subrange(0, i as int).map_values(|c: SelectCase| c.target_block));
            }
            assert(cases@.subrange(0, cases@.len() as int) =~= cases@);
            push_opt(&mut r, *timeout_block);
        },
        _ => {
            assert(r@ =~= term_targets(*t));
        },
    }
    r
}

fn side_target_list(i: &Instruction, pcmap: &Vec<BlockId>) -> (r: Vec<BlockId>)
    requires
        side_pcs_ok(*i, pcmap@.len() as int),
    ensures
        r@ == side_targets(*i, pcmap@),
{
    let mut r: Vec<BlockId> = Vec::new();
    match i {
        Instruction::RelativisticBlock { block_pc, block_len, .. } => {
            let m = pcmap.len();
            r.push(pcmap[*block_pc]);
            r.push(pcmap[*block_pc + *block_len]);
        },
        Instruction::Watchdog { recovery_jump: Some(t), .. } => {
            r.push(pcmap[*t]);
        },
        Instruction::Speculate { fallback_target, .. } => {
            r.push(pcmap[*fallback_target]);
        },
        Instruction::EndSpeculate { fallback_target, .. } => {
            r.push(pcmap[*fallback_target]);
        },
        _ => {},
    }
    assert(r@ =~= side_targets(*i, pcmap@));
    r
}

pub(crate) fn push_all_new(v: &mut Vec<BlockId>, xs: &Vec<BlockId>)
    ensures
        final(v)@ == add_all_new(old(v)@, xs@),
{
    let mut k: usize = 0;
    while k < xs.len()
        invariant
            k <= xs@.len(),
            v@ == add_all_new(old(v)@, xs@.subrange(0, k as int)),
        decreases xs@.len() - k,
    {
        assert(xs@.subrange(0, k + 1).drop_last() =~= xs@.subrange(0, k as int));
        push_new(v, xs[k]);
        k = k + 1;
    }
    assert(xs@.subrange(0, xs@.len() as int) =~= xs@);
}

/// The successor ids of one block.
fn block_successor_ids(b: &BasicBlock, pcmap: &Vec<BlockId>) -> (r: Vec<BlockId>)
    requires
        forall|j: int| 0 <= j < b.instructions@.len() ==> side_pcs_ok(#[trigger] b.instructions@[j], pcmap@.len() as int),
    ensures
        r@ == succ_ids(*b, pcmap@),
{
    let mut r = term_target_list(&b.terminator);
    let mut k: usize = 0;
    while k < b.instructions.len()
        invariant
            k <= b.instructions@.len(),
            forall|j: int| 0 <= j < b.instructions@.len() ==> side_pcs_ok(#[trigger] b.instructions@[j], pcmap@.len() as int),
            r@ == succ_ids_upto(*b, pcmap@, k as int),
        decreases b.instructions@.len() - k,
    {
        let ts = side_target_list(&b.instructions[k], pcmap);
        push_all_new(&mut r, &ts);
        k = k + 1;
    }
    r
}

/// A control-flow graph on its way to SSA form, with its edges by block
/// position.
pub struct SsaTransformer {
    pub cfg: CFG,
    pub successors: Vec<Vec<usize>>,
    pub predecessors: Vec<Vec<usize>>,
}

impl SsaTransformer {
    /// Successor lists by position, each the block's successor ids turned
    /// into positions.
    pub open spec fn succ_view(&self) -> Seq<Seq<usize>> {
        view_lists(self.successors@)
    }

    pub open spec fn pred_view(&self) -> Seq<Seq<usize>> {
        view_lists(self.predecessors@)
    }

    /// The edge lists are those of `self.cfg`.
    pub open spec fn edges_ok(&self) -> bool {
        let n = self.cfg.blocks.entries@.len();
        &&& cfg_pcs_ok(self.cfg)
        &&& self.successors@.len() == n
        &&& self.predecessors@.len() == n
        &&& forall|i: int| 0 <= i < n ==> (#[trigger] self.succ_view()[i]) == succ_pos(self.cfg, i)
        &&& forall|t: int| 0 <= t < n ==> (#[trigger] self.pred_view()[t]) == preds_upto(self.succ_view(), t as usize, n as int)
        &&& forall|i: int, k: int| 0 <= i < n && 0 <= k < self.succ_view()[i].len() ==> #[trigger] self.succ_view()[i][k] < n
    }

    /// Collects the edges of `cfg`: each block's terminator targets and the
    /// side targets of its instructions, and for every block the blocks
    /// with an edge into it, once per edge. An edge to an id that is no
    /// block of the graph is left out.
    #[verifier::spinoff_prover]
    pub fn new(cfg: CFG) -> (t: Self)
        requires
            cfg_pcs_ok(cfg),
        ensures
            t.cfg == cfg,
            t.edges_ok(),
    {
        let n = cfg.blocks.entries.len();
        let ghost pcmap = cfg.original_pc_to_block_id@;
        let mut successors: Vec<Vec<usize>> = Vec::new();
        let mut i: usize = 0;
        while i < n
            invariant
                cfg_pcs_ok(cfg),
                n == cfg.blocks.entries@.len(),
                pcmap == cfg.original_pc_to_block_id@,
                i <= n,
                successors@.len() == i,
                forall|q: int| 0 <= q < i ==> (#[trigger] view_lists(successors@)[q]) == succ_pos(cfg, q),
                forall|q: int, k: int| 0 <= q < i && 0 <= k < view_lists(successors@)[q].len() ==> #[trigger] view_lists(successors@)[q][k] < n,
            decreases n - i,
        {
            let blk = &cfg.blocks.entries[i].1;
            assert forall|j: int| 0 <= j < blk.instructions@.len() implies side_pcs_ok(#[trigger] blk.instructions@[j], pcmap.len() as int) by {
                assert(side_pcs_ok(cfg.blocks.entries@[i as int].1.instructions@[j], pcmap.len() as int));
            }
            let ids = block_successor_ids(blk, &cfg.original_pc_to_block_id);
            let mut pos: Vec<usize> = Vec::new();
            let mut k: usize = 0;
            while k < ids.len()
                invariant
                    cfg_pcs_ok(cfg),
                    n == cfg.blocks.entries@.len(),
                    pcmap == cfg.original_pc_to_block_id@,
                    i < n,
                    ids@ == succ_ids(cfg.blocks.entries@[i as int].1, pcmap),
                    k <= ids@.len(),
                    pos@ == present_pos(cfg, ids@.subrange(0, k as int)),
                    forall|j: int| 0 <= j < pos@.len() ==> #[trigger] pos@[j] < n,
                decreases ids@.len() - k,
            {
                assert(ids@.subrange(0, k + 1).drop_last() =~= ids@.subrange(0, k as int));
                assert(ids@.subrange(0, k + 1).last() == ids@[k as int]);
                let ghost pos0 = pos@;
                match cfg.blocks.find(ids[k]) {
                    Some(p) => {
                        pos.push(p);
                        assert(pos@ =~= pos0 + seq![p]);
                    },
                    None => {
                        assert(pos@ =~= pos0 + Seq::<usize>::empty());
                    },
                }
                k = k + 1;
            }
            assert(ids@.subrange(0, ids@.len() as int) =~= ids@);
            let ghost prev = view_lists(successors@);
            successors.push(pos);
            assert(view_lists(successors@) =~= prev.push(pos@));
            i = i + 1;
        }
        let ghost sv = view_lists(successors@);
        let mut predecessors: Vec<Vec<usize>> = Vec::new();
        let mut t: usize = 0;
        while t < n
            invariant
                t <= n,
                predecessors@.len() == t,
                forall|q: int| 0 <= q < t ==> (#[trigger] predecessors@[q])@ == Seq::<usize>::empty(),
            decreases n - t,
        {
            predecessors.push(Vec::new());
            t = t + 1;
        }
        let mut s: usize = 0;
        while s < n
            invariant
                n == cfg.blocks.entries@.len(),
                successors@.len() == n,
                sv == view_lists(successors@),
                forall|q: int, k: int| 0 <= q < n && 0 <= k < sv[q].len() ==> #[trigger] sv[q][k] < n,
                s <= n,
                predecessors@.len() == n,
                forall|q: int| 0 <= q < n ==> (#[trigger] predecessors@[q])@ == preds_upto(sv, q as usize, s as int),
            decreases n - s,
        {
            let mut k: usize = 0;
            let ghost before = view_lists(predecessors@);
            while k < successors[s].len()
                invariant
                    n == cfg.blocks.entries@.len(),
                    successors@.len() == n,
                    sv == view_lists(successors@),
                    forall|q: int, k2: int| 0 <= q < n && 0 <= k2 < sv[q].len() ==> #[trigger] sv[q][k2] < n,
                    s < n,
                    k <= sv[s as int].len(),
                    predecessors@.len() == n,
                    forall|q: int| 0 <= q < n ==> (#[trigger] predecessors@[q])@ == preds_upto(sv, q as usize, s as int)
                        + into_from(sv[s as int].subrange(0, k as int), s, q as usize),
                decreases sv[s as int].len() - k,
            {
                assert(sv[s as int] == successors@[s as int]@);
                let tgt = successors[s][k];
                assert(tgt == sv[s as int][k as int]);
                assert(sv[s as int].subrange(0, k + 1).drop_last() =~= sv[s as int].subrange(0, k as int));
                predecessors[tgt].push(s);
                k = k + 1;
                assert forall|q: int| 0 <= q < n implies (#[trigger] predecessors@[q])@ == preds_upto(sv, q as usize, s as int)
                    + into_from(sv[s as int].subrange(0, k as int), s, q as usize) by {
                    if q == tgt as int {
                    } else {
                    }
                }
            }
            assert(sv[s as int].subrange(0, sv[s as int].len() as int) =~= sv[s as int]);
            s = s + 1;
            assert forall|q: int| 0 <= q < n implies (#[trigger] predecessors@[q])@ == preds_upto(sv, q as usize, s as int) by {
                assert(preds_upto(sv, q as usize, s as int) == preds_upto(sv, q as usize, s - 1) + into_from(sv[s - 1], (s - 1) as usize, q as usize));
            }
        }
        let t = SsaTransformer { cfg, successors, predecessors };
        assert forall|q: int| 0 <= q < n implies (#[trigger] t.pred_view()[q]) == preds_upto(t.succ_view(), q as usize, n as int) by {
            assert(t.pred_view()[q] == t.predecessors@[q]@);
        }
        t
    }
}

/// `path` is a walk along the edges `succ`.
pub open spec fn is_walk(succ: Seq<Seq<usize>>, path: Seq<int>) -> bool {
    &&& path.len() >= 1
    &&& forall|k: int| 0 <= k < path.len() ==> 0 <= #[trigger] path[k] < succ.len()
    &&& forall|k: int| 0 <= k < path.len() - 1 ==> succ[path[k]].contains(#[trigger] path[k + 1] as usize)
}

/// Block `b` can be reached from block `a` along the edges `succ`.
pub open spec fn reaches(succ: Seq<Seq<usize>>, a: int, b: int) -> bool {
    exists|path: Seq<int>| #[trigger] is_walk(succ, path) && path[0] == a && path.last() == b
}

pub proof fn lemma_reaches_self(succ: Seq<Seq<usize>>, a: int)
    requires
        0 <= a < succ.len(),
    ensures
        reaches(succ, a, a),
{
    let path = seq![a];
    assert(is_walk(succ, path));
}

pub proof fn lemma_reaches_step(succ: Seq<Seq<usize>>, a: int, b: int, c: int)
    requires
        reaches(succ, a, b),
        0 <= c < succ.len(),
        succ[b].contains(c as usize),
    ensures
        reaches(succ, a, c),
{
    let path = choose|path: Seq<int>| #[trigger] is_walk(succ, path) && path[0] == a && path.last() == b;
    let p2 = path.push(c);
    assert forall|k: int| 0 <= k < p2.len() - 1 implies succ[p2[k]].contains(#[trigger] p2[k + 1] as usize) by {
        if k < path.len() - 1 {
            assert(p2[k] == path[k] && p2[k + 1] == path[k + 1]);
        }
    }
    assert(is_walk(succ, p2));
}

/// All edges of `succ` lead to blocks of the graph.
pub open spec fn edges_in_range(succ: Seq<Seq<usize>>) -> bool {
    forall|i: int, k: int| 0 <= i < succ.len() && 0 <= k < succ[i].len() ==> #[trigger] succ[i][k] < succ.len()
}

pub open spec fn num_false(s: Seq<bool>) -> int
    decreases s.len(),
{
    if s.len() == 0 {
        0
    } else {
        num_false(s.drop_last()) + if s.last() {
            0int
        } else {
            1int
        }
    }
}

/// `t` marks every position `s` marks.
pub open spec fn covers(t: Seq<bool>, s: Seq<bool>) -> bool {
    t.len() == s.len() && forall|i: int| 0 <= i < s.len() && #[trigger] s[i] ==> t[i]
}

pub proof fn lemma_num_false_covers(t: Seq<bool>, s: Seq<bool>)
    requires
        covers(t, s),
    ensures
        0 <= num_false(t) <= num_false(s),
        forall|i: int| 0 <= i < s.len() && !s[i] && #[trigger] t[i] ==> num_false(t) < num_false(s),
    decreases s.len(),
{
    if s.len() > 0 {
        assert(covers(t.drop_last(), s.drop_last()));
        lemma_num_false_covers(t.drop_last(), s.drop_last());
        assert forall|i: int| 0 <= i < s.len() && !s[i] && #[trigger] t[i] implies num_false(t) < num_false(s) by {
            if i < s.len() - 1 {
                assert(!s.drop_last()[i] && t.drop_last()[i]);
            }
        }
    }
}

/// Every successor of `x` is marked in `vis`.
pub open spec fn closed_at(succ: Seq<Seq<usize>>, vis: Seq<bool>, x: int) -> bool {
    forall|k: int| 0 <= k < succ[x].len() ==> vis[#[trigger] succ[x][k] as int]
}

/// Some block listed after position `j` of `p` has an edge to `p[j]`.
pub open spec fn has_later_pred(succ: Seq<Seq<usize>>, p: Seq<usize>, j: int) -> bool {
    exists|m: int| j < m < p.len() && succ[#[trigger] p[m] as int].contains(p[j])
}

/// `x` is listed in `p` at a position from `lo` on.
pub open spec fn listed(p: Seq<usize>, lo: int, x: int) -> bool {
    exists|j: int| lo <= j < p.len() && #[trigger] p[j] as int == x
}

pub open spec fn distinct(p: Seq<usize>) -> bool {
    forall|a: int, b: int| 0 <= a < b < p.len() ==> #[trigger] p[a] != #[trigger] p[b]
}

/// What a depth-first walk from `root` has produced in `post` from position
/// `lo` on: the blocks it newly marked (all of them but `extra`, which is
/// still open), each once, each reachable from `root` and with all its
/// successors marked.
pub open spec fn dfs_state(
    succ: Seq<Seq<usize>>,
    root: int,
    vis0: Seq<bool>,
    vis: Seq<bool>,
    post: Seq<usize>,
    lo: int,
    extra: int,
) -> bool {
    &&& 0 <= lo <= post.len()
    &&& vis0.len() == succ.len()
    &&& covers(vis, vis0)
    &&& forall|j: int| lo <= j < post.len() ==> 0 <= #[trigger] post[j] < succ.len()
    &&& forall|x: int| 0 <= x < succ.len() ==> ((#[trigger] vis[x] && !vis0[x]) <==> (listed(post, lo, x) || x == extra))
    &&& forall|a: int, b: int| lo <= a < b < post.len() ==> #[trigger] post[a] != #[trigger] post[b]
    &&& forall|j: int| lo <= j < post.len() ==> reaches(succ, root, #[trigger] post[j] as int)
    &&& forall|j: int| lo <= j < post.len() ==> closed_at(succ, vis, #[trigger] post[j] as int)
    &&& (extra >= 0 ==> !listed(post, lo, extra))
}

/// Every block listed from `lo` on has an edge into it from a block listed
/// later, or from `node`.
pub open spec fn preds_later(succ: Seq<Seq<usize>>, post: Seq<usize>, lo: int, node: int) -> bool {
    forall|j: int| lo <= j < post.len() ==> has_later_pred(succ, post, j) || succ[node].contains(#[trigger] post[j])
}

pub proof fn lemma_listed_split(p1: Seq<usize>, p2: Seq<usize>, lo: int, x: int)
    requires
        0 <= lo <= p1.len() <= p2.len(),
        p2.subrange(0, p1.len() as int) == p1,
    ensures
        listed(p1, lo, x) ==> listed(p2, lo, x),
        listed(p2, lo, x) ==> listed(p1, lo, x) || listed(p2, p1.len() as int, x),
        listed(p2, p1.len() as int, x) ==> listed(p2, lo, x),
{
    let hi = p1.len() as int;
    if listed(p1, lo, x) {
        let j = choose|j: int| lo <= j < p1.len() && #[trigger] p1[j] as int == x;
        assert(p2.subrange(0, hi)[j] == p1[j]);
        assert(p2[j] as int == x);
    }
    if listed(p2, lo, x) {
        let j = choose|j: int| lo <= j < p2.len() && #[trigger] p2[j] as int == x;
        if j < hi {
            assert(p2.subrange(0, hi)[j] == p1[j]);
            assert(p1[j] as int == x);
        } else {
            assert(p2[j] as int == x);
        }
    }
    if listed(p2, hi, x) {
        let j = choose|j: int| hi <= j < p2.len() && #[trigger] p2[j] as int == x;
        assert(p2[j] as int == x);
    }
}

#[verifier::spinoff_prover]
pub proof fn lemma_dfs_append(
    succ: Seq<Seq<usize>>,
    root: int,
    vis0: Seq<bool>,
    vis1: Seq<bool>,
    vis2: Seq<bool>,
    post1: Seq<usize>,
    post2: Seq<usize>,
    lo: int,
    node: int,
)
    requires
        edges_in_range(succ),
        dfs_state(succ, root, vis0, vis1, post1, lo, node),
        preds_later(succ, post1, lo, node),
        dfs_state(succ, root, vis1, vis2, post2, post1.len() as int, -1),
        post2.len() > post1.len(),
        post2.subrange(0, post1.len() as int) == post1,
        forall|j: int| post1.len() <= j < post2.len() - 1 ==> has_later_pred(succ, post2, j),
        succ[node].contains(post2.last()),
        0 <= node < succ.len(),
        vis1[node],
    ensures
        dfs_state(succ, root, vis0, vis2, post2, lo, node),
        preds_later(succ, post2, lo, node),
{
    let hi = post1.len() as int;
    assert forall|j: int| 0 <= j < hi implies post2[j] == post1[j] by {
        assert(post2.subrange(0, hi)[j] == post1[j]);
    }
    assert(covers(vis2, vis0));
    assert forall|x: int| 0 <= x < succ.len() implies ((#[trigger] vis2[x] && !vis0[x]) <==> (listed(post2, lo, x) || x == node)) by {
        lemma_listed_split(post1, post2, lo, x);
        assert(vis1[x] && !vis0[x] <==> listed(post1, lo, x) || x == node);
        assert(vis2[x] && !vis1[x] <==> listed(post2, hi, x));
    }
    lemma_listed_split(post1, post2, lo, node);
    assert forall|a: int, b: int| lo <= a < b < post2.len() implies #[trigger] post2[a] != #[trigger] post2[b] by {
        if b >= hi && a < hi {
            assert(listed(post2, hi, post2[b] as int));
            assert(post1[a] == post2[a]);
            assert(listed(post1, lo, post2[a] as int));
            assert(vis1[post2[a] as int]);
        } else if b < hi {
            assert(post1[a] == post2[a] && post1[b] == post2[b]);
        }
    }
    assert forall|j: int| lo <= j < post2.len() implies reaches(succ, root, #[trigger] post2[j] as int) by {
        if j < hi {
            assert(post1[j] == post2[j]);
        }
    }
    assert forall|j: int| lo <= j < post2.len() implies closed_at(succ, vis2, #[trigger] post2[j] as int) by {
        if j < hi {
            assert(post1[j] == post2[j]);
            let y = post1[j] as int;
            assert(closed_at(succ, vis1, y));
            assert forall|q: int| 0 <= q < succ[y].len() implies vis2[#[trigger] succ[y][q] as int] by {
                assert(vis1[succ[y][q] as int]);
                assert(0 <= succ[y][q] < vis1.len());
            }
        }
    }
    assert forall|j: int| lo <= j < post2.len() implies has_later_pred(succ, post2, j) || succ[node].contains(#[trigger] post2[j]) by {
        if j < hi {
            assert(post1[j] == post2[j]);
            if has_later_pred(succ, post1, j) {
                let m = choose|m: int| j < m < post1.len() && succ[#[trigger] post1[m] as int].contains(post1[j]);
                assert(post2[m] == post1[m]);
                assert(has_later_pred(succ, post2, j));
            }
        } else if j < post2.len() - 1 {
        } else {
            assert(post2[j] == post2.last());
        }
    }
}

pub proof fn lemma_dfs_finish(
    succ: Seq<Seq<usize>>,
    root: int,
    vis0: Seq<bool>,
    vis: Seq<bool>,
    post: Seq<usize>,
    lo: int,
    node: usize,
)
    requires
        dfs_state(succ, root, vis0, vis, post, lo, node as int),
        preds_later(succ, post, lo, node as int),
        node < succ.len(),
        vis[node as int],
        !vis0[node as int],
        reaches(succ, root, node as int),
        closed_at(succ, vis, node as int),
    ensures
        dfs_state(succ, root, vis0, vis, post.push(node as usize), lo, -1),
        forall|j: int| lo <= j < post.len() ==> #[trigger] has_later_pred(succ, post.push(node as usize), j),
{
    let p2 = post.push(node as usize);
    let hi = post.len() as int;
    assert forall|j: int| 0 <= j < hi implies p2[j] == post[j] by {}
    assert forall|x: int| 0 <= x < succ.len() implies ((#[trigger] vis[x] && !vis0[x]) <==> listed(p2, lo, x)) by {
        if vis[x] && !vis0[x] {
            if x == node {
                assert(p2[hi] == node);
            } else {
                let j = choose|j: int| lo <= j < post.len() && #[trigger] post[j] as int == x;
                assert(p2[j] as int == x);
            }
        }
        if listed(p2, lo, x) {
            let j = choose|j: int| lo <= j < p2.len() && #[trigger] p2[j] as int == x;
            if j < hi {
                assert(post[j] as int == x);
                assert(listed(post, lo, x));
            }
        }
    }
    assert forall|a: int, b: int| lo <= a < b < p2.len() implies #[trigger] p2[a] != #[trigger] p2[b] by {
        if b == hi {
            assert(post[a] == p2[a]);
            assert(listed(post, lo, post[a] as int));
        } else {
            assert(post[a] == p2[a] && post[b] == p2[b]);
        }
    }
    assert forall|j: int| lo <= j < p2.len() implies reaches(succ, root, #[trigger] p2[j] as int) by {
        if j < hi {
            assert(post[j] == p2[j]);
        }
    }
    assert forall|j: int| lo <= j < p2.len() implies closed_at(succ, vis, #[trigger] p2[j] as int) by {
        if j < hi {
            assert(post[j] == p2[j]);
        }
    }
    assert forall|j: int| lo <= j < post.len() implies has_later_pred(succ, p2, j) by {
        assert(post[j] == p2[j]);
        if has_later_pred(succ, post, j) {
            let m = choose|m: int| j < m < post.len() && succ[#[trigger] post[m] as int].contains(post[j]);
            assert(p2[m] == post[m]);
        } else {
            assert(p2[hi] == node);
            assert(succ[p2[hi] as int].contains(p2[j]));
        }
    }
}

/// Depth-first walk from `node`, appending blocks to `post` as they are
/// finished.
fn post_order_dfs(succ: &Vec<Vec<usize>>, node: usize, visited: &mut Vec<bool>, post: &mut Vec<usize>, Ghost(root): Ghost<int>)
    requires
        edges_in_range(view_lists(succ@)),
        old(visited)@.len() == succ@.len(),
        node < succ@.len(),
        !old(visited)@[node as int],
        reaches(view_lists(succ@), root, node as int),
    ensures
        final(visited)@[node as int],
        dfs_state(view_lists(succ@), root, old(visited)@, final(visited)@, final(post)@, old(post)@.len() as int, -1),
        final(post)@.subrange(0, old(post)@.len() as int) == old(post)@,
        final(post)@.len() > old(post)@.len(),
        final(post)@.last() == node,
        forall|j: int| old(post)@.len() <= j < final(post)@.len() - 1 ==> has_later_pred(view_lists(succ@), final(post)@, j),
    decreases num_false(old(visited)@),
{
    let ghost sv = view_lists(succ@);
    let ghost vis0 = visited@;
    let ghost lo = post@.len() as int;
    visited.set(node, true);
    proof {
        lemma_num_false_covers(visited@, vis0);
        assert(visited@[node as int] && !vis0[node as int]);
        assert(post@.subrange(0, lo) =~= old(post)@);
    }
    assert(sv[node as int] == succ@[node as int]@);
    let mut k: usize = 0;
    while k < succ[node].len()
        invariant
            sv == view_lists(succ@),
            edges_in_range(sv),
            node < sv.len(),
            vis0 == old(visited)@,
            vis0.len() == sv.len(),
            !vis0[node as int],
            reaches(sv, root, node as int),
            visited@.len() == sv.len(),
            visited@[node as int],
            num_false(visited@) < num_false(vis0),
            k <= sv[node as int].len(),
            lo == old(post)@.len(),
            post@.subrange(0, lo) == old(post)@,
            dfs_state(sv, root, vis0, visited@, post@, lo, node as int),
            preds_later(sv, post@, lo, node as int),
            forall|j: int| 0 <= j < k ==> visited@[#[trigger] sv[node as int][j] as int],
        decreases sv[node as int].len() - k,
    {
        assert(succ@[node as int]@ == sv[node as int]);
        let s = succ[node][k];
        assert(s == sv[node as int][k as int]);
        assert(s < sv.len());
        if !visited[s] {
            let ghost vis1 = visited@;
            let ghost post1 = post@;
            proof {
                lemma_reaches_step(sv, root, node as int, s as int);
                assert(sv[node as int].contains(s));
                lemma_num_false_covers(vis1, vis0);
            }
            post_order_dfs(succ, s, visited, post, Ghost(root));
            proof {
                lemma_dfs_append(sv, root, vis0, vis1, visited@, post1, post@, lo, node as int);
                lemma_num_false_covers(visited@, vis1);
                assert forall|j: int| 0 <= j < lo implies post@[j] == old(post)@[j] by {
                    assert(post@.subrange(0, post1.len() as int)[j] == post1[j]);
                    assert(post1.subrange(0, lo)[j] == old(post)@[j]);
                }
                assert(post@.subrange(0, lo) =~= old(post)@);
                assert forall|j: int| 0 <= j <= k implies visited@[#[trigger] sv[node as int][j] as int] by {
                    if j < k {
                        assert(vis1[sv[node as int][j] as int]);
                    }
                }
            }
        }
        k = k + 1;
    }
    let ghost post2 = post@;
    proof {
        assert(closed_at(sv, visited@, node as int));
        lemma_dfs_finish(sv, root, vis0, visited@, post2, lo, node);
    }
    post.push(node);
    assert(post@.subrange(0, lo) =~= post2.subrange(0, lo));
}

pub proof fn lemma_closed_walk(succ: Seq<Seq<usize>>, vis: Seq<bool>, path: Seq<int>)
    requires
        is_walk(succ, path),
        vis.len() == succ.len(),
        succ.len() <= usize::MAX,
        vis[path[0]],
        forall|x: int| 0 <= x < succ.len() && #[trigger] vis[x] ==> closed_at(succ, vis, x),
    ensures
        vis[path.last()],
    decreases path.len(),
{
    if path.len() > 1 {
        let q = path.drop_last();
        assert(is_walk(succ, q)) by {
            assert forall|k: int| 0 <= k < q.len() - 1 implies succ[q[k]].contains(#[trigger] q[k + 1] as usize) by {
                assert(q[k] == path[k] && q[k + 1] == path[k + 1]);
            }
        }
        lemma_closed_walk(succ, vis, q);
        let a = path[path.len() - 2];
        assert(q.last() == a);
        assert(succ[a].contains(path[path.len() - 2 + 1] as usize));
        let k = choose|k: int| 0 <= k < succ[a].len() && succ[a][k] == path.last() as usize;
        assert(closed_at(succ, vis, a));
        assert(vis[succ[a][k] as int]);
        assert(0 <= path.last() < succ.len());
        assert((path.last() as usize) as int == path.last());
    }
}

/// The depth-first post order of the blocks reachable from `entry`.
pub open spec fn post_order_of(succ: Seq<Seq<usize>>, entry: int, vis: Seq<bool>, post: Seq<usize>) -> bool {
    &&& vis.len() == succ.len()
    &&& post.len() >= 1
    &&& post.last() == entry
    &&& distinct(post)
    &&& forall|j: int| 0 <= j < post.len() ==> 0 <= #[trigger] post[j] < succ.len()
    &&& forall|x: int| 0 <= x < succ.len() ==> (#[trigger] vis[x] <==> listed(post, 0, x))
    &&& forall|x: int| 0 <= x < succ.len() ==> (#[trigger] vis[x] <==> reaches(succ, entry, x))
    &&& forall|j: int| 0 <= j < post.len() - 1 ==> #[trigger] has_later_pred(succ, post, j)
}

/// Marks the blocks reachable from `entry` and lists them in depth-first
/// post order.
#[verifier::spinoff_prover]
fn reachable_post_order(succ: &Vec<Vec<usize>>, entry: usize) -> (r: (Vec<bool>, Vec<usize>))
    requires
        edges_in_range(view_lists(succ@)),
        entry < succ@.len(),
    ensures
        post_order_of(view_lists(succ@), entry as int, r.0@, r.1@),
{
    let ghost sv = view_lists(succ@);
    let mut visited: Vec<bool> = Vec::new();
    let mut i: usize = 0;
    while i < succ.len()
        invariant
            i <= succ@.len(),
            visited@.len() == i,
            forall|j: int| 0 <= j < i ==> !(#[trigger] visited@[j]),
        decreases succ@.len() - i,
    {
        visited.push(false);
        i = i + 1;
    }
    let ghost vis0 = visited@;
    let mut post: Vec<usize> = Vec::new();
    proof {
        lemma_reaches_self(sv, entry as int);
    }
    post_order_dfs(succ, entry, &mut visited, &mut post, Ghost(entry as int));
    proof {
        assert(post@.subrange(0, 0) =~= Seq::<usize>::empty());
        assert forall|a: int, b: int| 0 <= a < b < post@.len() implies #[trigger] post@[a] != #[trigger] post@[b] by {}
        assert forall|x: int| 0 <= x < sv.len() && #[trigger] visited@[x] implies closed_at(sv, visited@, x) by {
            let j = choose|j: int| 0 <= j < post@.len() && #[trigger] post@[j] as int == x;
            assert(closed_at(sv, visited@, post@[j] as int));
        }
        assert forall|x: int| 0 <= x < sv.len() implies (#[trigger] visited@[x] <==> reaches(sv, entry as int, x)) by {
            if visited@[x] {
                let j = choose|j: int| 0 <= j < post@.len() && #[trigger] post@[j] as int == x;
                assert(reaches(sv, entry as int, post@[j] as int));
            }
            if reaches(sv, entry as int, x) {
                let path = choose|path: Seq<int>| #[trigger] is_walk(sv, path) && path[0] == entry as int && path.last() == x;
                lemma_closed_walk(sv, visited@, path);
            }
        }
    }
    (visited, post)
}

pub proof fn lemma_distinct_len(p: Seq<usize>, n: int)
    requires
        distinct(p),
        n >= 0,
        forall|j: int| 0 <= j < p.len() ==> 0 <= #[trigger] p[j] < n,
    ensures
        p.len() <= n,
{
    let q = p.map_values(|x: usize| x as int);
    assert(q.no_duplicates()) by {
        assert forall|a: int, b: int| 0 <= a < q.len() && 0 <= b < q.len() && a != b implies q[a] != q[b] by {
            if a < b {
                assert(p[a] != p[b]);
            } else {
                assert(p[b] != p[a]);
            }
        }
    }
    q.unique_seq_to_set();
    vstd::set_lib::lemma_int_range(0, n);
    assert(q.to_set().subset_of(vstd::set_lib::set_int_range(0, n))) by {
        assert forall|x: int| q.to_set().contains(x) implies vstd::set_lib::set_int_range(0, n).contains(x) by {
            assert(q.contains(x));
            let j = choose|j: int| 0 <= j < q.len() && q[j] == x;
            assert(p[j] < n);
        }
    }
    vstd::set_lib::lemma_len_subset(q.to_set(), vstd::set_lib::set_int_range(0, n));
}

/// Position of every block in the post order (`post.len()` for blocks not
/// listed).
pub open spec fn order_index(post: Seq<usize>, po: Seq<usize>, n: int) -> bool {
    &&& po.len() == n
    &&& forall|j: int| 0 <= j < post.len() ==> po[#[trigger] post[j] as int] == j
    &&& forall|x: int| 0 <= x < n && !listed(post, 0, x) ==> #[trigger] po[x] == post.len()
}

fn post_order_index(post: &Vec<usize>, n: usize) -> (po: Vec<usize>)
    requires
        distinct(post@),
        forall|j: int| 0 <= j < post@.len() ==> 0 <= #[trigger] post@[j] < n,
        post@.len() <= n,
    ensures
        order_index(post@, po@, n as int),
{
    let mut po: Vec<usize> = Vec::new();
    let mut i: usize = 0;
    while i < n
        invariant
            i <= n,
            po@.len() == i,
            post@.len() <= n,
            forall|j: int| 0 <= j < i ==> #[trigger] po@[j] == post@.len(),
        decreases n - i,
    {
        po.push(post.len());
        i = i + 1;
    }
    let mut j: usize = 0;
    while j < post.len()
        invariant
            j <= post@.len(),
            po@.len() == n,
            distinct(post@),
            forall|q: int| 0 <= q < post@.len() ==> 0 <= #[trigger] post@[q] < n,
            forall|q: int| 0 <= q < j ==> po@[#[trigger] post@[q] as int] == q,
            forall|x: int| 0 <= x < n && !listed(post@.subrange(0, j as int), 0, x) ==> #[trigger] po@[x] == post@.len(),
        decreases post@.len() - j,
    {
        let x = post[j];
        let ghost old_po = po@;
        po.set(x, j);
        proof {
            assert forall|q: int| 0 <= q <= j implies po@[#[trigger] post@[q] as int] == q by {
                if q < j {
                    assert(post@[q] != post@[j as int]);
                }
            }
            assert forall|y: int| 0 <= y < n && !listed(post@.subrange(0, j + 1), 0, y) implies #[trigger] po@[y] == post@.len() by {
                if y == x as int {
                    assert(post@.subrange(0, j + 1)[j as int] as int == y);
                }
                if listed(post@.subrange(0, j as int), 0, y) {
                    let q = choose|q: int| 0 <= q < j && #[trigger] post@.subrange(0, j as int)[q] as int == y;
                    assert(post@.subrange(0, j + 1)[q] as int == y);
                }
            }
        }
        j = j + 1;
    }
    proof {
        assert(post@.subrange(0, post@.len() as int) =~= post@);
    }
    po
}

pub proof fn lemma_into_from(ss: Seq<usize>, src: usize, t: usize)
    ensures
        ss.contains(t) ==> into_from(ss, src, t).contains(src),
        forall|i: int| 0 <= i < into_from(ss, src, t).len() ==> #[trigger] into_from(ss, src, t)[i] == src,
    decreases ss.len(),
{
    if ss.len() > 0 {
        lemma_into_from(ss.drop_last(), src, t);
        let a = into_from(ss.drop_last(), src, t);
        let c = if ss.last() == t { seq![src] } else { Seq::<usize>::empty() };
        assert(into_from(ss, src, t) == a + c);
        if ss.contains(t) {
            let i = choose|i: int| 0 <= i < ss.len() && ss[i] == t;
            if i < ss.len() - 1 {
                assert(ss.drop_last()[i] == t);
                let q = choose|q: int| 0 <= q < a.len() && a[q] == src;
                assert((a + c)[q] == src);
            } else {
                assert((a + c)[a.len() as int] == src);
            }
        }
        assert forall|i: int| 0 <= i < (a + c).len() implies #[trigger] (a + c)[i] == src by {
            if i < a.len() {
                assert(a[i] == src);
            }
        }
    }
}

pub proof fn lemma_preds_upto(succ: Seq<Seq<usize>>, t: usize, k: int)
    requires
        0 <= k <= succ.len(),
        succ.len() <= usize::MAX,
    ensures
        forall|u: int| 0 <= u < k && succ[u].contains(t) ==> #[trigger] preds_upto(succ, t, k).contains(u as usize),
        forall|i: int| 0 <= i < preds_upto(succ, t, k).len() ==> #[trigger] preds_upto(succ, t, k)[i] < k,
    decreases k,
{
    if k > 0 {
        lemma_preds_upto(succ, t, k - 1);
        lemma_into_from(succ[k - 1], (k - 1) as usize, t);
        let a = preds_upto(succ, t, k - 1);
        let c = into_from(succ[k - 1], (k - 1) as usize, t);
        assert(preds_upto(succ, t, k) == a + c);
        assert forall|u: int| 0 <= u < k && succ[u].contains(t) implies #[trigger] preds_upto(succ, t, k).contains(u as usize) by {
            if u < k - 1 {
                assert(preds_upto(succ, t, k - 1).contains(u as usize));
                let q = choose|q: int| 0 <= q < a.len() && a[q] == u as usize;
                assert((a + c)[q] == u as usize);
            } else {
                let q = choose|q: int| 0 <= q < c.len() && c[q] == (k - 1) as usize;
                assert((a + c)[a.len() + q] == u as usize);
            }
        }
        assert forall|i: int| 0 <= i < (a + c).len() implies #[trigger] (a + c)[i] < k by {
            if i < a.len() {
                assert(a[i] < k - 1);
            } else {
                assert(c[i - a.len()] == (k - 1) as usize);
            }
        }
    }
}

/// The entries of `ps` that `vis` marks, in order.
pub open spec fn keep_marked(ps: Seq<usize>, vis: Seq<bool>) -> Seq<usize>
    decreases ps.len(),
{
    if ps.len() == 0 {
        Seq::empty()
    } else {
        keep_marked(ps.drop_last(), vis) + if vis[ps.last() as int] {
            seq![ps.last()]
        } else {
            Seq::<usize>::empty()
        }
    }
}

pub proof fn lemma_keep_marked(ps: Seq<usize>, vis: Seq<bool>)
    ensures
        forall|u: usize| ps.contains(u) && vis[u as int] ==> #[trigger] keep_marked(ps, vis).contains(u),
        forall|i: int| 0 <= i < keep_marked(ps, vis).len() ==> ps.contains(#[trigger] keep_marked(ps, vis)[i]) && vis[keep_marked(ps, vis)[i] as int],
    decreases ps.len(),
{
    if ps.len() > 0 {
        lemma_keep_marked(ps.drop_last(), vis);
        let a = keep_marked(ps.drop_last(), vis);
        let c = if vis[ps.last() as int] { seq![ps.last()] } else { Seq::<usize>::empty() };
        assert(keep_marked(ps, vis) == a + c);
        assert forall|u: usize| ps.contains(u) && vis[u as int] implies #[trigger] keep_marked(ps, vis).contains(u) by {
            let i = choose|i: int| 0 <= i < ps.len() && ps[i] == u;
            if i < ps.len() - 1 {
                assert(ps.drop_last()[i] == u);
                assert(keep_marked(ps.drop_last(), vis).contains(u));
                let q = choose|q: int| 0 <= q < a.len() && a[q] == u;
                assert((a + c)[q] == u);
            } else {
                assert((a + c)[a.len() as int] == u);
            }
        }
        assert forall|i: int| 0 <= i < (a + c).len() implies ps.contains(#[trigger] (a + c)[i]) && vis[(a + c)[i] as int] by {
            if i < a.len() {
                let x = a[i];
                assert(ps.drop_last().contains(x));
                let q = choose|q: int| 0 <= q < ps.drop_last().len() && ps.drop_last()[q] == x;
                assert(ps[q] == x);
            } else {
                assert(ps[ps.len() - 1] == ps.last());
            }
        }
    }
}

fn keep_listed(ps: &Vec<usize>, vis: &Vec<bool>) -> (r: Vec<usize>)
    requires
        forall|i: int| 0 <= i < ps@.len() ==> #[trigger] ps@[i] < vis@.len(),
    ensures
        r@ == keep_marked(ps@, vis@),
{
    let mut r: Vec<usize> = Vec::new();
    let mut i: usize = 0;
    while i < ps.len()
        invariant
            i <= ps@.len(),
            forall|q: int| 0 <= q < ps@.len() ==> #[trigger] ps@[q] < vis@.len(),
            r@ == keep_marked(ps@.subrange(0, i as int), vis@),
        decreases ps@.len() - i,
    {
        assert(ps@.subrange(0, i + 1).drop_last() =~= ps@.subrange(0, i as int));
        let x = ps[i];
        if vis[x] {
            r.push(x);
        }
        i = i + 1;
        assert(r@ =~= keep_marked(ps@.subrange(0, i as int), vis@));
    }
    assert(ps@.subrange(0, ps@.len() as int) =~= ps@);
    r
}

/// Facts about a post order and its position index.
pub open spec fn order_facts(post: Seq<usize>, po: Seq<usize>, entry: int, n: int) -> bool {
    &&& 1 <= post.len() <= n
    &&& n <= usize::MAX
    &&& post.last() == entry
    &&& distinct(post)
    &&& forall|j: int| 0 <= j < post.len() ==> 0 <= #[trigger] post[j] < n
    &&& order_index(post, po, n)
}

pub proof fn lemma_order_pos(post: Seq<usize>, po: Seq<usize>, entry: int, n: int, x: int)
    requires
        order_facts(post, po, entry, n),
        0 <= x < n,
    ensures
        listed(post, 0, x) ==> po[x] < post.len() && post[po[x] as int] as int == x,
        !listed(post, 0, x) ==> po[x] == post.len(),
        po[entry] == post.len() - 1,
        listed(post, 0, entry),
{
    if listed(post, 0, x) {
        let j = choose|j: int| 0 <= j < post.len() && #[trigger] post[j] as int == x;
        assert(po[post[j] as int] == j);
    }
    assert(post[post.len() - 1] as int == entry);
    assert(po[post[post.len() - 1] as int] == post.len() - 1);
}

/// The immediate-dominator map `idom` (with `n` for no entry yet) forms a
/// tree over listed blocks rooted at `entry`, each block's parent later in
/// the post order.
pub open spec fn dom_tree(post: Seq<usize>, po: Seq<usize>, idom: Seq<usize>, entry: int, n: int) -> bool {
    &&& idom.len() == n
    &&& 0 <= entry < n
    &&& idom[entry] == entry
    &&& forall|x: int|
        0 <= x < n && #[trigger] idom[x] < n ==> listed(post, 0, x) && listed(post, 0, idom[x] as int) && idom[idom[x] as int] < n
            && (x != entry ==> po[idom[x] as int] > po[x])
}

/// Walks both blocks up the dominator tree until they meet.
#[verifier::spinoff_prover]
fn intersect(idom: &Vec<usize>, po: &Vec<usize>, b1: usize, b2: usize, Ghost(post): Ghost<Seq<usize>>, Ghost(entry): Ghost<int>) -> (r: usize)
    requires
        order_facts(post, po@, entry, idom@.len() as int),
        dom_tree(post, po@, idom@, entry, idom@.len() as int),
        b1 < idom@.len(),
        b2 < idom@.len(),
        idom@[b1 as int] < idom@.len(),
        idom@[b2 as int] < idom@.len(),
    ensures
        r < idom@.len(),
        idom@[r as int] < idom@.len(),
        po@[r as int] >= po@[b1 as int],
        po@[r as int] >= po@[b2 as int],
{
    let ghost n = idom@.len() as int;
    let ghost top = post.len() - 1;
    let mut x = b1;
    let mut y = b2;
    proof {
        lemma_order_pos(post, po@, entry, n, x as int);
        lemma_order_pos(post, po@, entry, n, y as int);
    }
    while x != y
        invariant
            order_facts(post, po@, entry, n),
            dom_tree(post, po@, idom@, entry, n),
            n == idom@.len(),
            top == post.len() - 1,
            x < n,
            y < n,
            idom@[x as int] < n,
            idom@[y as int] < n,
            po@[x as int] >= po@[b1 as int],
            po@[y as int] >= po@[b2 as int],
            po@[x as int] <= top,
            po@[y as int] <= top,
        decreases 2 * top - po@[x as int] - po@[y as int],
    {
        let ghost start = po@[x as int] + po@[y as int];
        proof {
            lemma_order_pos(post, po@, entry, n, x as int);
            lemma_order_pos(post, po@, entry, n, y as int);
        }
        while po[x] < po[y]
            invariant
                order_facts(post, po@, entry, n),
                dom_tree(post, po@, idom@, entry, n),
                n == idom@.len(),
                top == post.len() - 1,
                x < n,
                y < n,
                idom@[x as int] < n,
                idom@[y as int] < n,
                po@[x as int] >= po@[b1 as int],
                po@[x as int] <= top,
                po@[y as int] <= top,
                po@[x as int] + po@[y as int] >= start,
            decreases top - po@[x as int],
        {
            proof {
                lemma_order_pos(post, po@, entry, n, x as int);
                lemma_order_pos(post, po@, entry, n, idom@[x as int] as int);
            }
            x = idom[x];
        }
        while po[y] < po[x]
            invariant
                order_facts(post, po@, entry, n),
                dom_tree(post, po@, idom@, entry, n),
                n == idom@.len(),
                top == post.len() - 1,
                x < n,
                y < n,
                idom@[x as int] < n,
                idom@[y as int] < n,
                po@[y as int] >= po@[b2 as int],
                po@[x as int] <= top,
                po@[y as int] <= top,
                po@[x as int] + po@[y as int] >= start,
            decreases top - po@[y as int],
        {
            proof {
                lemma_order_pos(post, po@, entry, n, y as int);
                lemma_order_pos(post, po@, entry, n, idom@[y as int] as int);
            }
            y = idom[y];
        }
        proof {
            lemma_order_pos(post, po@, entry, n, x as int);
            lemma_order_pos(post, po@, entry, n, y as int);
            if po@[x as int] + po@[y as int] == start {
                assert(po@[x as int] == po@[y as int]);
                assert(x == y);
            }
        }
    }
    x
}

/// Predecessor lists that hold every listed block with an edge in.
pub open spec fn preds_cover(succ: Seq<Seq<usize>>, post: Seq<usize>, preds: Seq<Seq<usize>>, n: int) -> bool {
    &&& succ.len() == n
    &&& preds.len() == n
    &&& forall|b: int, i: int| 0 <= b < n && 0 <= i < preds[b].len() ==> #[trigger] preds[b][i] < n && listed(post, 0, preds[b][i] as int)
    &&& forall|u: usize, b: usize| u < n && b < n && listed(post, 0, u as int) && #[trigger] succ[u as int].contains(b) ==> #[trigger] preds[b as int].contains(u)
}

/// Immediate dominators of the listed blocks, by the iterative scheme over
/// reverse post order: a block's dominator is the meeting point, in the
/// tree built so far, of its predecessors that have one, repeated until no
/// block changes (the number of passes is counted, which ends the loop).
#[verifier::spinoff_prover]
#[verifier::rlimit(40)]
fn compute_dominators(preds: &Vec<Vec<usize>>, post: &Vec<usize>, po: &Vec<usize>, entry: usize, Ghost(succ): Ghost<Seq<Seq<usize>>>) -> (idom: Vec<usize>)
    requires
        order_facts(post@, po@, entry as int, preds@.len() as int),
        preds_cover(succ, post@, view_lists(preds@), preds@.len() as int),
        forall|j: int| 0 <= j < post@.len() - 1 ==> #[trigger] has_later_pred(succ, post@, j),
    ensures
        dom_tree(post@, po@, idom@, entry as int, preds@.len() as int),
        forall|x: int| 0 <= x < preds@.len() && listed(post@, 0, x) ==> #[trigger] idom@[x] < preds@.len(),
{
    let n = preds.len();
    let ghost pv = view_lists(preds@);
    let mut idom: Vec<usize> = Vec::new();
    let mut i: usize = 0;
    while i < n
        invariant
            i <= n,
            idom@.len() == i,
            forall|q: int| 0 <= q < i ==> #[trigger] idom@[q] == n,
        decreases n - i,
    {
        idom.push(n);
        i = i + 1;
    }
    proof {
        lemma_order_pos(post@, po@, entry as int, n as int, entry as int);
    }
    idom.set(entry, entry);
    let mut changed = true;
    let mut passes: u64 = 0;
    while changed && passes < u64::MAX
        invariant
            n == preds@.len(),
            pv == view_lists(preds@),
            order_facts(post@, po@, entry as int, n as int),
            preds_cover(succ, post@, pv, n as int),
            forall|j: int| 0 <= j < post@.len() - 1 ==> #[trigger] has_later_pred(succ, post@, j),
            dom_tree(post@, po@, idom@, entry as int, n as int),
            passes == 0 ==> changed,
            passes > 0 ==> forall|x: int| 0 <= x < n && listed(post@, 0, x) ==> #[trigger] idom@[x] < n,
        decreases u64::MAX - passes,
    {
        changed = false;
        passes = passes + 1;
        let mut idx: usize = post.len();
        while idx > 0
            invariant
                n == preds@.len(),
                pv == view_lists(preds@),
                order_facts(post@, po@, entry as int, n as int),
                preds_cover(succ, post@, pv, n as int),
                forall|j: int| 0 <= j < post@.len() - 1 ==> #[trigger] has_later_pred(succ, post@, j),
                dom_tree(post@, po@, idom@, entry as int, n as int),
                idx <= post@.len(),
                forall|m: int| idx <= m < post@.len() ==> #[trigger] idom@[post@[m] as int] < n,
            decreases idx,
        {
            idx = idx - 1;
            let b = post[idx];
            proof {
                lemma_order_pos(post@, po@, entry as int, n as int, b as int);
                assert(listed(post@, 0, b as int));
            }
            if b != entry {
                proof {
                    assert(idx < post@.len() - 1) by {
                        if idx == post@.len() - 1 {
                            assert(post@[idx as int] == post@.last());
                        }
                    }
                    assert(has_later_pred(succ, post@, idx as int));
                }
                let ghost m = choose|m: int| idx < m < post@.len() && succ[#[trigger] post@[m] as int].contains(post@[idx as int]);
                let ghost u = post@[m] as int;
                proof {
                    lemma_order_pos(post@, po@, entry as int, n as int, u);
                    assert(listed(post@, 0, u));
                    let uu = post@[m];
                    assert(succ[uu as int].contains(b));
                    assert(pv[b as int].contains(uu));
                }
                let ghost qu = choose|q: int| 0 <= q < pv[b as int].len() && pv[b as int][q] == u as usize;
                let ps = &preds[b];
                assert(ps@ == pv[b as int]);
                let mut new_idom: usize = n;
                let mut j: usize = 0;
                while j < ps.len()
                    invariant_except_break
                        new_idom == n,
                        qu >= j,
                    invariant
                        n == idom@.len(),
                        ps@ == pv[b as int],
                        preds_cover(succ, post@, pv, n as int),
                        b < n,
                        j <= ps@.len(),
                        0 <= qu < ps@.len(),
                        idom@[ps@[qu] as int] < n,
                    ensures
                        new_idom < n,
                        idom@[new_idom as int] < n,
                    decreases ps@.len() - j,
                {
                    assert(ps@[j as int] < n);
                    if idom[ps[j]] < n {
                        new_idom = ps[j];
                        break;
                    }
                    j = j + 1;
                }
                let mut k: usize = 0;
                while k < ps.len()
                    invariant
                        n == idom@.len(),
                        ps@ == pv[b as int],
                        order_facts(post@, po@, entry as int, n as int),
                        preds_cover(succ, post@, pv, n as int),
                        dom_tree(post@, po@, idom@, entry as int, n as int),
                        b < n,
                        k <= ps@.len(),
                        0 <= qu < ps@.len(),
                        ps@[qu] as int == u,
                        0 <= u < n,
                        idom@[u] < n,
                        new_idom < n,
                        idom@[new_idom as int] < n,
                        qu < k ==> po@[new_idom as int] >= po@[u],
                    decreases ps@.len() - k,
                {
                    let p = ps[k];
                    assert(p < n);
                    if p != new_idom && idom[p] < n {
                        new_idom = intersect(&idom, po, p, new_idom, Ghost(post@), Ghost(entry as int));
                    }
                    k = k + 1;
                }
                proof {
                    assert(po@[u] == m);
                    assert(po@[b as int] == idx);
                    lemma_order_pos(post@, po@, entry as int, n as int, new_idom as int);
                }
                if idom[b] != new_idom {
                    idom.set(b, new_idom);
                    changed = true;
                }
                proof {
                    assert forall|x: int| 0 <= x < n && #[trigger] idom@[x] < n implies listed(post@, 0, x) && listed(post@, 0, idom@[x] as int) && idom@[idom@[x] as int] < n
                        && (x != entry ==> po@[idom@[x] as int] > po@[x]) by {
                        if x == b as int {
                            lemma_order_pos(post@, po@, entry as int, n as int, x);
                        }
                    }
                }
            }
            proof {
                assert forall|q: int| idx <= q < post@.len() implies #[trigger] idom@[post@[q] as int] < n by {
                    if q > idx {
                    }
                }
            }
        }
        proof {
            assert forall|x: int| 0 <= x < n && listed(post@, 0, x) implies #[trigger] idom@[x] < n by {
                let j = choose|j: int| 0 <= j < post@.len() && #[trigger] post@[j] as int == x;
                assert(idom@[post@[j] as int] < n);
            }
        }
    }
    idom
}

/// The registers an instruction defines, in the order the renamer
/// defines them, as the phi placement and the end of a block's scope see
/// them.
pub open spec fn dest_regs_spec(i: Instruction) -> Seq<Reg> {
    match i {
        Instruction::BinaryOp { dest, .. } | Instruction::UnaryOp { dest, .. } | Instruction::LoadInt { dest, .. } | Instruction::LoadFloat { dest, .. } | Instruction::LoadBool { dest, .. } | Instruction::LoadString { dest, .. } | Instruction::LoadNull { dest, .. } | Instruction::ConstInt { dest, .. } | Instruction::ConstFloat { dest, .. } | Instruction::ConstBool { dest, .. } | Instruction::ConstString { dest, .. } | Instruction::ConstNull { dest, .. } | Instruction::Move { dest, .. } | Instruction::Clone { dest, .. } | Instruction::StrBytes { dest, .. } | Instruction::ToStr { dest, .. } | Instruction::ArrayLen { dest, .. } | Instruction::Call { dest, .. } | Instruction::DynamicCall { dest, .. } | Instruction::TypeAssert { dest, .. } | Instruction::TypeCast { dest, .. } | Instruction::StructLit { dest, .. } | Instruction::TopologyLit { dest, .. } | Instruction::ArrayLit { dest, .. } | Instruction::FieldAccess { dest, .. } | Instruction::IndexAccess { dest, .. } | Instruction::Defer { dest, .. } | Instruction::ChanRecv { dest, .. } => seq![dest],
        Instruction::TryTypeAssert { dest, success, .. } => seq![dest, success],
        Instruction::Lease { target_reg, .. } => seq![target_reg],
        Instruction::FieldUpdate { target, .. } | Instruction::IndexFieldUpdate { target, .. } => seq![target],
        Instruction::For { dest_cond, item_reg, .. } | Instruction::ForStep { dest_cond, item_reg, .. } => seq![dest_cond, item_reg],
        Instruction::SplitMap { item_reg, .. } => seq![item_reg],
        Instruction::Select { cases, .. } => cases@.map_values(|c: IrSelectCase| c.dest),
        _ => Seq::empty(),
    }
}

pub fn dest_regs(i: &Instruction) -> (r: Vec<Reg>)
    ensures
        r@ == dest_regs_spec(*i),
{
    let mut r: Vec<Reg> = Vec::new();
    match i {
        Instruction::BinaryOp { dest, .. } | Instruction::UnaryOp { dest, .. } | Instruction::LoadInt { dest, .. } | Instruction::LoadFloat { dest, .. } | Instruction::LoadBool { dest, .. } | Instruction::LoadString { dest, .. } | Instruction::LoadNull { dest, .. } | Instruction::ConstInt { dest, .. } | Instruction::ConstFloat { dest, .. } | Instruction::ConstBool { dest, .. } | Instruction::ConstString { dest, .. } | Instruction::ConstNull { dest, .. } | Instruction::Move { dest, .. } | Instruction::Clone { dest, .. } | Instruction::StrBytes { dest, .. } | Instruction::ToStr { dest, .. } | Instruction::ArrayLen { dest, .. } | Instruction::Call { dest, .. } | Instruction::DynamicCall { dest, .. } | Instruction::TypeAssert { dest, .. } | Instruction::TypeCast { dest, .. } | Instruction::StructLit { dest, .. } | Instruction::TopologyLit { dest, .. } | Instruction::ArrayLit { dest, .. } | Instruction::FieldAccess { dest, .. } | Instruction::IndexAccess { dest, .. } | Instruction::Defer { dest, .. } | Instruction::ChanRecv { dest, .. } => {
            r.push(*dest);
        },
        Instruction::TryTypeAssert { dest, success, .. } => {
            r.push(*dest);
            r.push(*success);
        },
        Instruction::Lease { target_reg, .. } => {
            r.push(*target_reg);
        },
        Instruction::FieldUpdate { target, .. } | Instruction::IndexFieldUpdate { target, .. } => {
            r.push(*target);
        },
        Instruction::For { dest_cond, item_reg, .. } | Instruction::ForStep { dest_cond, item_reg, .. } => {
            r.push(*dest_cond);
            r.push(*item_reg);
        },
        Instruction::SplitMap { item_reg, .. } => {
            r.push(*item_reg);
        },
        Instruction::Select { cases, .. } => {
            let mut k: usize = 0;
            while k < cases.len()
                invariant
                    k <= cases@.len(),
                    r@ == cases@.subrange(0, k as int).map_values(|c: IrSelectCase| c.dest),
                decreases cases@.len() - k,
            {
                r.push(cases[k].dest);
                k = k + 1;
                assert(r@ =~= cases@.subrange(0, k as int).map_values(|c: IrSelectCase| c.dest));
            }
            assert(cases@.subrange(0, cases@.len() as int) =~= cases@);
        },
        _ => {},
    }
    assert(r@ =~= dest_regs_spec(*i));
    r
}

/// The select cases of a terminator as the renamer sees them.
pub open spec fn ir_cases(cs: Seq<SelectCase>) -> Seq<IrSelectCase> {
    cs.map_values(|c: SelectCase| IrSelectCase { chan_id: c.chan_id, dest: c.dest, target: c.target_block as usize })
}

/// How many versions renaming a terminator hands out.
pub open spec fn term_defs(t: Terminator) -> int {
    match t {
        Terminator::Select { cases, .. } => cases@.len() as int,
        _ => 0,
    }
}

pub open spec fn read_opt(st: VersionState, o: Option<Reg>) -> Option<SsaReg> {
    match o {
        Some(r) => Some(read_reg(st, r.0)),
        None => None,
    }
}

/// `s` is what renaming turns terminator `t` into in version state `st0`,
/// `st1` the state afterwards: operands read their current version, select
/// cases define fresh ones, targets stay.
pub open spec fn term_renamed(st0: VersionState, t: Terminator, s: SsaTerminator, st1: VersionState) -> bool {
    match (t, s) {
        (Terminator::Jump { target: a }, SsaTerminator::Jump { target: b }) => a == b && st1 == st0,
        (
            Terminator::Branch { cond: c1, then_block: t1, else_block: e1 },
            SsaTerminator::Branch { cond: c2, then_block: t2, else_block: e2 },
        ) => c2 == read_reg(st0, c1.0) && t2 == t1 && e2 == e1 && st1 == st0,
        (Terminator::Return { src: a }, SsaTerminator::Return { src: b }) => b == read_opt(st0, a) && st1 == st0,
        (
            Terminator::MatchEntropy { target: g1, valid_block: v1, decayed_block: d1, pending_block: p1, consumed_block: c1 },
            SsaTerminator::MatchEntropy { target: g2, valid_block: v2, decayed_block: d2, pending_block: p2, consumed_block: c2 },
        ) => g2 == read_reg(st0, g1.0) && v2 == v1 && d2 == d1 && p2 == p1 && c2 == c1 && st1 == st0,
        (
            Terminator::Select { max_ms: m1, cases: cs1, timeout_block: b1 },
            SsaTerminator::Select { max_ms: m2, cases: cs2, timeout_block: b2 },
        ) => m2 == m1 && b2 == b1 && cs2@ == define_cases(st0, ir_cases(cs1@)).1 && st1 == define_cases(st0, ir_cases(cs1@)).0,
        (Terminator::Unreachable, SsaTerminator::Unreachable) => st1 == st0,
        _ => false,
    }
}

fn ir_case_list(cs: &Vec<SelectCase>) -> (r: Vec<IrSelectCase>)
    ensures
        r@ == ir_cases(cs@),
{
    let mut r: Vec<IrSelectCase> = Vec::new();
    let mut k: usize = 0;
    while k < cs.len()
        invariant
            k <= cs@.len(),
            r@ == ir_cases(cs@.subrange(0, k as int)),
        decreases cs@.len() - k,
    {
        let c = &cs[k];
        r.push(IrSelectCase { chan_id: c.chan_id.clone(), dest: c.dest, target: c.target_block as usize });
        k = k + 1;
        assert(r@ =~= ir_cases(cs@.subrange(0, k as int)));
    }
    assert(cs@.subrange(0, cs@.len() as int) =~= cs@);
    r
}

/// Renames a block's terminator.
fn rename_terminator(vt: &mut VersionTable, t: &Terminator) -> (r: SsaTerminator)
    requires
        old(vt).wf(),
        version_room(old(vt).vstate(), term_defs(*t)),
    ensures
        final(vt).wf(),
        term_renamed(old(vt).vstate(), *t, r, final(vt).vstate()),
{
    match t {
        Terminator::Jump { target } => SsaTerminator::Jump { target: *target },
        Terminator::Branch { cond, then_block, else_block } => SsaTerminator::Branch {
            cond: vt.current_ssa_reg(*cond),
            then_block: *then_block,
            else_block: *else_block,
        },
        Terminator::Return { src } => {
            let s = match src {
                Some(r) => Some(vt.current_ssa_reg(*r)),
                None => None,
            };
            SsaTerminator::Return { src: s }
        },
        Terminator::MatchEntropy { target, valid_block, decayed_block, pending_block, consumed_block } => SsaTerminator::MatchEntropy {
            target: vt.current_ssa_reg(*target),
            valid_block: *valid_block,
            decayed_block: *decayed_block,
            pending_block: *pending_block,
            consumed_block: *consumed_block,
        },
        Terminator::Select { max_ms, cases, timeout_block } => {
            let ir = ir_case_list(cases);
            let cs = vt.define_cases(&ir);
            SsaTerminator::Select { max_ms: *max_ms, cases: cs, timeout_block: *timeout_block }
        },
        Terminator::Unreachable => SsaTerminator::Unreachable,
    }
}

fn list_contains(v: &Vec<usize>, x: usize) -> (r: bool)
    ensures
        r == v@.contains(x),
{
    let mut i: usize = 0;
    while i < v.len()
        invariant
            i <= v@.len(),
            forall|j: int| 0 <= j < i ==> v@[j] != x,
        decreases v@.len() - i,
    {
        if v[i] == x {
            return true;
        }
        i = i + 1;
    }
    false
}

/// Lists of listed blocks without repetition.
pub open spec fn frontier_lists(df: Seq<Seq<usize>>, post: Seq<usize>, n: int) -> bool {
    &&& df.len() == n
    &&& forall|x: int, i: int| 0 <= x < n && 0 <= i < df[x].len() ==> #[trigger] df[x][i] < n && listed(post, 0, df[x][i] as int)
    &&& forall|x: int| 0 <= x < n ==> distinct(#[trigger] df[x])
}

/// The walk from `p` up the dominator tree `idom`, towards `ib`, is still
/// going after `k` steps: it has not met `ib`, nor, before its last step,
/// the entry.
pub open spec fn walk_ok(idom: Seq<usize>, ib: int, entry: int, p: int, k: nat) -> bool
    decreases k,
{
    if k == 0 {
        p != ib
    } else {
        p != ib && p != entry && walk_ok(idom, ib, entry, idom[p] as int, (k - 1) as nat)
    }
}

/// The walk from `p` up the dominator tree towards `ib` meets `x`.
pub open spec fn walk_meets(idom: Seq<usize>, ib: int, entry: int, p: int, x: int) -> bool {
    exists|k: nat| #[trigger] walk_ok(idom, ib, entry, p, k) && up(idom, p, k) == x
}

/// `y` is in the dominance frontier of `x`: `y` is a reachable block with
/// two or more predecessor edges, and the walk from one of its
/// predecessors up to its immediate dominator meets `x`.
pub open spec fn frontier_of(preds: Seq<Seq<usize>>, vis: Seq<bool>, idom: Seq<usize>, entry: int, x: int, y: int) -> bool {
    &&& vis[y]
    &&& preds[y].len() >= 2
    &&& exists|j: int| 0 <= j < preds[y].len() && #[trigger] walk_meets(idom, idom[y] as int, entry, preds[y][j] as int, x)
}

proof fn lemma_walk_extend(idom: Seq<usize>, ib: int, entry: int, p: int, k: nat)
    ensures
        walk_ok(idom, ib, entry, p, k + 1) == (walk_ok(idom, ib, entry, p, k) && up(idom, p, k) != entry && up(idom, p, k + 1) != ib),
    decreases k,
{
    let q = idom[p] as int;
    assert(walk_ok(idom, ib, entry, p, k + 1) == (p != ib && p != entry && walk_ok(idom, ib, entry, q, k)));
    assert(up(idom, p, k + 1) == up(idom, q, k));
    if k > 0 {
        lemma_walk_extend(idom, ib, entry, q, (k - 1) as nat);
        assert((k - 1 + 1) as nat == k);
        assert(walk_ok(idom, ib, entry, p, k) == (p != ib && p != entry && walk_ok(idom, ib, entry, q, (k - 1) as nat)));
        assert(up(idom, p, k) == up(idom, q, (k - 1) as nat));
    } else {
        assert(walk_ok(idom, ib, entry, q, 0) == (q != ib));
        assert(up(idom, q, 0) == q);
    }
}

proof fn lemma_walk_avoids(idom: Seq<usize>, ib: int, entry: int, p: int, m: nat, i: nat)
    requires
        walk_ok(idom, ib, entry, p, m),
        i <= m,
    ensures
        up(idom, p, i) != ib,
        i < m ==> up(idom, p, i) != entry,
    decreases m,
{
    if i > 0 {
        lemma_walk_avoids(idom, ib, entry, idom[p] as int, (m - 1) as nat, (i - 1) as nat);
    }
}

/// Dominance frontiers: for every block with at least two predecessors,
/// each predecessor and its dominators up to (not including) the block's
/// immediate dominator have the block in their frontier.
#[verifier::spinoff_prover]
fn compute_dominance_frontiers(
    preds: &Vec<Vec<usize>>,
    vis: &Vec<bool>,
    idom: &Vec<usize>,
    po: &Vec<usize>,
    entry: usize,
    Ghost(post): Ghost<Seq<usize>>,
) -> (df: Vec<Vec<usize>>)
    requires
        order_facts(post, po@, entry as int, preds@.len() as int),
        dom_tree(post, po@, idom@, entry as int, preds@.len() as int),
        vis@.len() == preds@.len(),
        forall|x: int| 0 <= x < preds@.len() ==> (#[trigger] vis@[x] <==> listed(post, 0, x)),
        forall|x: int| 0 <= x < preds@.len() && listed(post, 0, x) ==> #[trigger] idom@[x] < preds@.len(),
        forall|x: int, i: int| 0 <= x < preds@.len() && 0 <= i < preds@[x]@.len() ==> #[trigger] preds@[x]@[i] < preds@.len() && listed(post, 0, preds@[x]@[i] as int),
    ensures
        frontier_lists(view_lists(df@), post, preds@.len() as int),
        forall|x: int, y: int| 0 <= x < preds@.len() && 0 <= y < preds@.len() ==>
            (view_lists(df@)[x].contains(y as usize) <==> #[trigger] frontier_of(view_lists(preds@), vis@, idom@, entry as int, x, y)),
{
    let n = preds.len();
    let ghost pv = view_lists(preds@);
    let mut df: Vec<Vec<usize>> = Vec::new();
    let mut i: usize = 0;
    while i < n
        invariant
            i <= n,
            df@.len() == i,
            forall|q: int| 0 <= q < i ==> (#[trigger] df@[q])@ == Seq::<usize>::empty(),
        decreases n - i,
    {
        df.push(Vec::new());
        i = i + 1;
    }
    proof {
        assert(frontier_lists(view_lists(df@), post, n as int));
    }
    let ghost top = post.len() - 1;
    let mut b: usize = 0;
    while b < n
        invariant
            n == preds@.len(),
            order_facts(post, po@, entry as int, n as int),
            dom_tree(post, po@, idom@, entry as int, n as int),
            vis@.len() == n,
            forall|x: int| 0 <= x < n ==> (#[trigger] vis@[x] <==> listed(post, 0, x)),
            forall|x: int| 0 <= x < n && listed(post, 0, x) ==> #[trigger] idom@[x] < n,
            forall|x: int, i: int| 0 <= x < n && 0 <= i < preds@[x]@.len() ==> #[trigger] preds@[x]@[i] < n && listed(post, 0, preds@[x]@[i] as int),
            b <= n,
            top == post.len() - 1,
            frontier_lists(view_lists(df@), post, n as int),
            pv == view_lists(preds@),
            forall|x: int, y: int| 0 <= x < n && 0 <= y < b ==>
                (view_lists(df@)[x].contains(y as usize) <==> #[trigger] frontier_of(pv, vis@, idom@, entry as int, x, y)),
            forall|x: int, y: usize| 0 <= x < n && b <= y < n ==> !(#[trigger] view_lists(df@)[x].contains(y)),
        decreases n - b,
    {
        assert(pv[b as int] == preds@[b as int]@);
        if vis[b] && preds[b].len() >= 2 {
            let ib = idom[b];
            let mut j: usize = 0;
            while j < preds[b].len()
                invariant
                    n == preds@.len(),
                    order_facts(post, po@, entry as int, n as int),
                    dom_tree(post, po@, idom@, entry as int, n as int),
                    forall|x: int| 0 <= x < n && listed(post, 0, x) ==> #[trigger] idom@[x] < n,
                    forall|x: int, i: int| 0 <= x < n && 0 <= i < preds@[x]@.len() ==> #[trigger] preds@[x]@[i] < n && listed(post, 0, preds@[x]@[i] as int),
                    b < n,
                    listed(post, 0, b as int),
                    j <= preds@[b as int]@.len(),
                    top == post.len() - 1,
                    frontier_lists(view_lists(df@), post, n as int),
                    pv == view_lists(preds@),
                    vis@[b as int],
                    pv[b as int].len() >= 2,
                    ib == idom@[b as int],
                    forall|x: int, y: int| 0 <= x < n && 0 <= y < b ==>
                        (view_lists(df@)[x].contains(y as usize) <==> #[trigger] frontier_of(pv, vis@, idom@, entry as int, x, y)),
                    forall|x: int, y: usize| 0 <= x < n && b < y < n ==> !(#[trigger] view_lists(df@)[x].contains(y)),
                    forall|x: int| 0 <= x < n ==> ((#[trigger] view_lists(df@)[x]).contains(b) <==>
                        exists|j2: int| 0 <= j2 < j && #[trigger] walk_meets(idom@, ib as int, entry as int, pv[b as int][j2] as int, x)),
                decreases preds@[b as int]@.len() - j,
            {
                let mut runner = preds[b][j];
                let ghost p = runner as int;
                let ghost mut k: nat = 0;
                let ghost mut done = false;
                let ghost d0 = view_lists(df@);
                proof {
                    assert(preds@[b as int]@[j as int] < n);
                    lemma_order_pos(post, po@, entry as int, n as int, runner as int);
                }
                while runner != ib
                    invariant_except_break
                        !done,
                    invariant
                        pv == view_lists(preds@),
                        p == pv[b as int][j as int],
                        runner as int == up(idom@, p, k),
                        k > 0 ==> walk_ok(idom@, ib as int, entry as int, p, (k - 1) as nat) && up(idom@, p, (k - 1) as nat) != entry,
                        j < pv[b as int].len(),
                        ib == idom@[b as int],
                        d0.len() == n,
                        !done ==> forall|x: int| 0 <= x < n ==> ((#[trigger] view_lists(df@)[x]).contains(b) <==>
                            (d0[x].contains(b) || exists|i: nat| i < k && #[trigger] walk_ok(idom@, ib as int, entry as int, p, i) && up(idom@, p, i) == x)),
                        done ==> forall|x: int| 0 <= x < n ==> ((#[trigger] view_lists(df@)[x]).contains(b) <==>
                            (d0[x].contains(b) || walk_meets(idom@, ib as int, entry as int, p, x))),
                        forall|x: int, y: usize| 0 <= x < n && y < n && y != b ==> ((#[trigger] view_lists(df@)[x].contains(y)) == d0[x].contains(y)),
                        n == preds@.len(),
                        order_facts(post, po@, entry as int, n as int),
                        dom_tree(post, po@, idom@, entry as int, n as int),
                        forall|x: int| 0 <= x < n && listed(post, 0, x) ==> #[trigger] idom@[x] < n,
                        b < n,
                        listed(post, 0, b as int),
                        runner < n,
                        listed(post, 0, runner as int),
                        po@[runner as int] <= top,
                        top == post.len() - 1,
                        frontier_lists(view_lists(df@), post, n as int),
                    ensures
                        !done ==> runner == ib,
                    decreases top - po@[runner as int],
                {
                    proof {
                        if k > 0 {
                            lemma_walk_extend(idom@, ib as int, entry as int, p, (k - 1) as nat);
                        }
                        assert(walk_ok(idom@, ib as int, entry as int, p, k));
                    }
                    let ghost bw = view_lists(df@);
                    if !list_contains(&df[runner], b) {
                        let ghost before = view_lists(df@);
                        df[runner].push(b);
                        proof {
                            assert forall|x: int, y: usize| 0 <= x < n && y < n implies
                                (#[trigger] view_lists(df@)[x].contains(y)) == (before[x].contains(y) || (x == runner as int && y == b)) by {
                                if x == runner as int {
                                    if view_lists(df@)[x].contains(y) {
                                        let q = choose|q: int| 0 <= q < view_lists(df@)[x].len() && view_lists(df@)[x][q] == y;
                                        if q < before[x].len() {
                                            assert(before[x][q] == y);
                                        }
                                    }
                                    if before[x].contains(y) {
                                        let q = choose|q: int| 0 <= q < before[x].len() && before[x][q] == y;
                                        assert(view_lists(df@)[x][q] == y);
                                    }
                                    if y == b {
                                        assert(view_lists(df@)[x][before[x].len() as int] == b);
                                    }
                                } else {
                                    assert(view_lists(df@)[x] == before[x]);
                                }
                            }
                            assert(view_lists(df@) == before.update(runner as int, before[runner as int].push(b)));
                            assert forall|x: int, i: int| 0 <= x < n && 0 <= i < view_lists(df@)[x].len() implies #[trigger] view_lists(df@)[x][i] < n && listed(post, 0, view_lists(df@)[x][i] as int) by {
                                if x == runner as int && i == before[x].len() {
                                } else {
                                    assert(view_lists(df@)[x][i] == before[x][i]);
                                }
                            }
                            assert forall|x: int| 0 <= x < n implies distinct(#[trigger] view_lists(df@)[x]) by {
                                if x == runner as int {
                                    assert(!before[x].contains(b));
                                    let d = view_lists(df@)[x];
                                    assert forall|p: int, q: int| 0 <= p < q < d.len() implies #[trigger] d[p] != #[trigger] d[q] by {
                                        if q == before[x].len() {
                                            assert(d[p] == before[x][p]);
                                        } else {
                                            assert(d[p] == before[x][p] && d[q] == before[x][q]);
                                        }
                                    }
                                } else {
                                    assert(view_lists(df@)[x] == before[x]);
                                }
                            }
                        }
                    } else {
                        proof {
                            assert(bw[runner as int].contains(b));
                            assert forall|x: int, y: usize| 0 <= x < n && y < n implies
                                (#[trigger] view_lists(df@)[x].contains(y)) == (bw[x].contains(y) || (x == runner as int && y == b)) by {}
                        }
                    }
                    proof {
                        assert forall|x: int| 0 <= x < n implies ((#[trigger] view_lists(df@)[x]).contains(b) <==>
                            (d0[x].contains(b) || exists|i: nat| i < k + 1 && #[trigger] walk_ok(idom@, ib as int, entry as int, p, i) && up(idom@, p, i) == x)) by {
                            assert(view_lists(df@)[x].contains(b) == (bw[x].contains(b) || x == runner as int));
                            if x == runner as int {
                                assert(view_lists(df@)[x].contains(b));
                                assert(walk_ok(idom@, ib as int, entry as int, p, k) && up(idom@, p, k) == x);
                            } else {
                                assert(view_lists(df@)[x].contains(b) == bw[x].contains(b));
                                if exists|i: nat| i < k + 1 && #[trigger] walk_ok(idom@, ib as int, entry as int, p, i) && up(idom@, p, i) == x {
                                    let i = choose|i: nat| i < k + 1 && #[trigger] walk_ok(idom@, ib as int, entry as int, p, i) && up(idom@, p, i) == x;
                                    assert(i < k);
                                }
                            }
                        }
                    }
                    if runner == entry {
                        proof {
                            assert forall|x: int| 0 <= x < n implies ((#[trigger] view_lists(df@)[x]).contains(b) <==>
                                (d0[x].contains(b) || walk_meets(idom@, ib as int, entry as int, p, x))) by {
                                if walk_meets(idom@, ib as int, entry as int, p, x) {
                                    let i = choose|i: nat| #[trigger] walk_ok(idom@, ib as int, entry as int, p, i) && up(idom@, p, i) == x;
                                    if i > k {
                                        lemma_walk_avoids(idom@, ib as int, entry as int, p, i, k);
                                    }
                                }
                            }
                            done = true;
                        }
                        break;
                    }
                    proof {
                        lemma_order_pos(post, po@, entry as int, n as int, runner as int);
                        lemma_order_pos(post, po@, entry as int, n as int, idom@[runner as int] as int);
                        assert(up(idom@, p, k + 1) == up(idom@, up(idom@, p, k), 1)) by {
                            lemma_up_add(idom@, p, k, 1);
                        }
                        assert(up(idom@, runner as int, 1) == up(idom@, idom@[runner as int] as int, 0));
                    }
                    runner = idom[runner];
                    proof {
                        k = k + 1;
                    }
                }
                proof {
                    if !done {
                        assert forall|x: int| 0 <= x < n implies ((#[trigger] view_lists(df@)[x]).contains(b) <==>
                            (d0[x].contains(b) || walk_meets(idom@, ib as int, entry as int, p, x))) by {
                            if view_lists(df@)[x].contains(b) && !d0[x].contains(b) {
                                let i = choose|i: nat| i < k && #[trigger] walk_ok(idom@, ib as int, entry as int, p, i) && up(idom@, p, i) == x;
                                assert(walk_ok(idom@, ib as int, entry as int, p, i) && up(idom@, p, i) == x);
                            }
                            if walk_meets(idom@, ib as int, entry as int, p, x) {
                                let i = choose|i: nat| #[trigger] walk_ok(idom@, ib as int, entry as int, p, i) && up(idom@, p, i) == x;
                                if i >= k {
                                    lemma_walk_avoids(idom@, ib as int, entry as int, p, i, k);
                                }
                            }
                        }
                    }
                    assert forall|x: int| 0 <= x < n implies ((#[trigger] view_lists(df@)[x]).contains(b) <==>
                        exists|j2: int| 0 <= j2 < j + 1 && #[trigger] walk_meets(idom@, ib as int, entry as int, pv[b as int][j2] as int, x)) by {
                        if exists|j2: int| 0 <= j2 < j + 1 && #[trigger] walk_meets(idom@, ib as int, entry as int, pv[b as int][j2] as int, x) {
                            let j2 = choose|j2: int| 0 <= j2 < j + 1 && #[trigger] walk_meets(idom@, ib as int, entry as int, pv[b as int][j2] as int, x);
                            if j2 < j {
                                assert(d0[x].contains(b));
                            }
                        }
                    }
                }
                j = j + 1;
            }
            proof {
                assert forall|x: int, y: int| 0 <= x < n && 0 <= y < b + 1 implies
                    (view_lists(df@)[x].contains(y as usize) <==> #[trigger] frontier_of(pv, vis@, idom@, entry as int, x, y)) by {
                    if y == b as int {
                        assert(view_lists(df@)[x].contains(b) <==>
                            exists|j2: int| 0 <= j2 < pv[b as int].len() && #[trigger] walk_meets(idom@, ib as int, entry as int, pv[b as int][j2] as int, x));
                    }
                }
            }
        } else {
            proof {
                assert forall|x: int, y: int| 0 <= x < n && 0 <= y < b + 1 implies
                    (view_lists(df@)[x].contains(y as usize) <==> #[trigger] frontier_of(pv, vis@, idom@, entry as int, x, y)) by {
                    if y == b as int {
                        assert(!view_lists(df@)[x].contains(y as usize));
                        assert(!frontier_of(pv, vis@, idom@, entry as int, x, y));
                    }
                }
            }
        }
        b = b + 1;
    }
    df
}

pub proof fn lemma_dest_count(i: Instruction)
    ensures
        dest_regs_spec(i).len() <= defs_of(i),
        defs_of(i) >= 0,
{
}

pub open spec fn reg_ids(rs: Seq<Reg>) -> Seq<u32> {
    rs.map_values(|r: Reg| r.0)
}

/// The registers the instructions define, in order.
pub open spec fn instr_dests(instrs: Seq<Instruction>) -> Seq<u32>
    decreases instrs.len(),
{
    if instrs.len() == 0 {
        Seq::empty()
    } else {
        instr_dests(instrs.drop_last()) + reg_ids(dest_regs_spec(instrs.last()))
    }
}

pub open spec fn term_dests(t: Terminator) -> Seq<u32> {
    match t {
        Terminator::Select { cases, .. } => cases@.map_values(|c: SelectCase| c.dest.0),
        _ => Seq::empty(),
    }
}

/// The registers a block defines: its instructions' destinations, then
/// those of its select cases.
pub open spec fn block_dests(blk: BasicBlock) -> Seq<u32> {
    instr_dests(blk.instructions@) + term_dests(blk.terminator)
}

pub open spec fn defs_sum(instrs: Seq<Instruction>) -> int
    decreases instrs.len(),
{
    if instrs.len() == 0 {
        0
    } else {
        defs_sum(instrs.drop_last()) + defs_of(instrs.last())
    }
}

/// How many versions renaming a block hands out, phi nodes aside.
pub open spec fn block_defs(blk: BasicBlock) -> int {
    defs_sum(blk.instructions@) + term_defs(blk.terminator)
}

pub open spec fn defs_upto(es: Seq<(BlockId, BasicBlock)>, k: int) -> int
    decreases k,
{
    if k <= 0 {
        0
    } else {
        defs_upto(es, k - 1) + block_defs(es[k - 1].1)
    }
}

/// How many versions renaming all blocks of `cfg` hands out, phi nodes
/// aside.
pub open spec fn total_defs(cfg: CFG) -> int {
    defs_upto(cfg.blocks.entries@, cfg.blocks.entries@.len() as int)
}

pub proof fn lemma_instr_dests(instrs: Seq<Instruction>)
    ensures
        instr_dests(instrs).len() <= defs_sum(instrs),
        defs_sum(instrs) >= 0,
    decreases instrs.len(),
{
    if instrs.len() > 0 {
        lemma_instr_dests(instrs.drop_last());
        lemma_dest_count(instrs.last());
    }
}

pub proof fn lemma_block_dests(blk: BasicBlock)
    ensures
        block_dests(blk).len() <= block_defs(blk),
        block_defs(blk) >= 0,
{
    lemma_instr_dests(blk.instructions@);
}

pub proof fn lemma_defs_upto(es: Seq<(BlockId, BasicBlock)>, j: int, k: int)
    requires
        0 <= j <= k <= es.len(),
    ensures
        0 <= defs_upto(es, j) <= defs_upto(es, k),
        j < k ==> defs_upto(es, j) + block_defs(es[j].1) <= defs_upto(es, k),
    decreases k,
{
    if k > 0 {
        lemma_block_dests(es[k - 1].1);
        if j < k {
            lemma_defs_upto(es, j, k - 1);
        } else {
            lemma_defs_upto(es, k - 1, k - 1);
        }
    }
}

fn block_def_regs(blk: &BasicBlock) -> (r: Vec<u32>)
    ensures
        r@ == block_dests(*blk),
{
    let mut r: Vec<u32> = Vec::new();
    let mut k: usize = 0;
    while k < blk.instructions.len()
        invariant
            k <= blk.instructions@.len(),
            r@ == instr_dests(blk.instructions@.subrange(0, k as int)),
        decreases blk.instructions@.len() - k,
    {
        let ds = dest_regs(&blk.instructions[k]);
        let ghost before = r@;
        let mut q: usize = 0;
        while q < ds.len()
            invariant
                q <= ds@.len(),
                r@ == before + reg_ids(ds@.subrange(0, q as int)),
            decreases ds@.len() - q,
        {
            r.push(ds[q].0);
            q = q + 1;
            assert(r@ =~= before + reg_ids(ds@.subrange(0, q as int)));
        }
        assert(ds@.subrange(0, ds@.len() as int) =~= ds@);
        assert(blk.instructions@.subrange(0, k + 1).drop_last() =~= blk.instructions@.subrange(0, k as int));
        k = k + 1;
    }
    assert(blk.instructions@.subrange(0, blk.instructions@.len() as int) =~= blk.instructions@);
    let ghost mid = r@;
    match &blk.terminator {
        Terminator::Select { cases, .. } => {
            let mut q: usize = 0;
            while q < cases.len()
                invariant
                    q <= cases@.len(),
                    r@ == mid + cases@.subrange(0, q as int).map_values(|c: SelectCase| c.dest.0),
                decreases cases@.len() - q,
            {
                r.push(cases[q].dest.0);
                q = q + 1;
                assert(r@ =~= mid + cases@.subrange(0, q as int).map_values(|c: SelectCase| c.dest.0));
            }
            assert(cases@.subrange(0, cases@.len() as int) =~= cases@);
        },
        _ => {
            assert(r@ =~= mid + term_dests(blk.terminator));
        },
    }
    r
}

pub open spec fn strictly_sorted(v: Seq<u32>) -> bool {
    forall|a: int, b: int| 0 <= a < b < v.len() ==> #[trigger] v[a] < #[trigger] v[b]
}

/// Inserts `x` into a strictly increasing list unless it is there.
fn insert_sorted(v: &mut Vec<u32>, x: u32)
    requires
        strictly_sorted(old(v)@),
    ensures
        strictly_sorted(final(v)@),
        forall|y: u32| final(v)@.contains(y) <==> (old(v)@.contains(y) || y == x),
        final(v)@.len() <= old(v)@.len() + 1,
{
    let mut i: usize = 0;
    while i < v.len() && v[i] < x
        invariant
            i <= v@.len(),
            strictly_sorted(v@),
            v@ == old(v)@,
            forall|j: int| 0 <= j < i ==> v@[j] < x,
        decreases v@.len() - i,
    {
        i = i + 1;
    }
    if i < v.len() && v[i] == x {
        return;
    }
    let ghost o = v@;
    v.insert(i, x);
    proof {
        assert(v@ == o.insert(i as int, x));
        assert forall|a: int, b: int| 0 <= a < b < v@.len() implies #[trigger] v@[a] < #[trigger] v@[b] by {
            if b < i {
            } else if a < i && b == i {
            } else if a < i && b > i {
                assert(v@[b] == o[b - 1]);
            } else if a == i {
                assert(v@[b] == o[b - 1]);
                assert(o[b - 1] != x);
                if b - 1 > i {
                    assert(o[i as int] < o[b - 1]);
                }
                assert(!(o[b - 1] < x));
            } else {
                assert(v@[a] == o[a - 1] && v@[b] == o[b - 1]);
            }
        }
        assert forall|y: u32| v@.contains(y) <==> (o.contains(y) || y == x) by {
            if v@.contains(y) {
                let j = choose|j: int| 0 <= j < v@.len() && v@[j] == y;
                if j < i {
                    assert(o[j] == y);
                } else if j > i {
                    assert(o[j - 1] == y);
                }
            }
            if o.contains(y) {
                let j = choose|j: int| 0 <= j < o.len() && o[j] == y;
                if j < i {
                    assert(v@[j] == y);
                } else {
                    assert(v@[j + 1] == y);
                }
            }
            if y == x {
                assert(v@[i as int] == x);
            }
        }
    }
}

fn reg_list_contains(v: &Vec<u32>, x: u32) -> (r: bool)
    ensures
        r == v@.contains(x),
{
    let mut i: usize = 0;
    while i < v.len()
        invariant
            i <= v@.len(),
            forall|j: int| 0 <= j < i ==> v@[j] != x,
        decreases v@.len() - i,
    {
        if v[i] == x {
            return true;
        }
        i = i + 1;
    }
    false
}

/// A phi node as placed, before renaming: its destination is version 0 of
/// its register and it has no incoming values yet.
pub open spec fn phi_placed(p: SsaPhiNode) -> bool {
    p.dest == (SsaReg { reg: p.original_reg.0, version: 0 }) && p.incoming@.len() == 0
}

/// At most one phi node per register, by increasing register.
pub open spec fn phis_sorted(ps: Seq<SsaPhiNode>) -> bool {
    forall|a: int, b: int| 0 <= a < b < ps.len() ==> (#[trigger] ps[a]).original_reg.0 < (#[trigger] ps[b]).original_reg.0
}

pub open spec fn placed_lists(phis: Seq<Vec<SsaPhiNode>>, n: int, bound: int) -> bool {
    &&& phis.len() == n
    &&& forall|y: int| 0 <= y < n ==> (#[trigger] phis[y])@.len() <= bound
    &&& forall|y: int, j: int| 0 <= y < n && 0 <= j < phis[y]@.len() ==> phi_placed(#[trigger] phis[y]@[j])
    &&& forall|y: int| 0 <= y < n ==> phis_sorted(#[trigger] phis[y]@)
}

/// The register lists as sequences.
pub open spec fn reg_lists(v: Seq<Vec<u32>>) -> Seq<Seq<u32>> {
    v.map_values(|x: Vec<u32>| x@)
}

/// `w` is a chain of frontier steps from a block that defines `r`: each
/// block after the first is in the dominance frontier of the one before.
pub open spec fn df_chain(df: Seq<Seq<usize>>, defs: Seq<Seq<u32>>, r: u32, w: Seq<int>) -> bool {
    &&& w.len() >= 2
    &&& 0 <= w[0] < defs.len()
    &&& defs[w[0]].contains(r)
    &&& forall|i: int| 0 <= i < w.len() - 1 ==> 0 <= #[trigger] w[i] < df.len() && 0 <= w[i + 1] < df.len() && df[w[i]].contains(w[i + 1] as usize)
}

/// Block `y` is in the iterated dominance frontier of the blocks that
/// define `r`.
pub open spec fn in_idf(df: Seq<Seq<usize>>, defs: Seq<Seq<u32>>, r: u32, y: int) -> bool {
    exists|w: Seq<int>| #[trigger] df_chain(df, defs, r, w) && w.last() == y
}

/// Some phi node of `ps` is for register `r`.
pub open spec fn has_phi_for(ps: Seq<SsaPhiNode>, r: u32) -> bool {
    exists|j: int| 0 <= j < ps.len() && (#[trigger] ps[j]).original_reg.0 == r
}

/// What the worklist for register `r` holds: blocks that define `r` or lie
/// in its iterated frontier; every block given a phi node is in it.
pub open spec fn worklist_ok(dv: Seq<Seq<usize>>, bv: Seq<Seq<u32>>, r: u32, wl: Seq<usize>, added: Seq<bool>, n: int) -> bool {
    &&& forall|k: int| 0 <= k < wl.len() ==> #[trigger] wl[k] < n && (bv[wl[k] as int].contains(r) || in_idf(dv, bv, r, wl[k] as int))
    &&& forall|y: int| 0 <= y < n && #[trigger] added[y] ==> in_idf(dv, bv, r, y) && wl.contains(y as usize)
    &&& forall|b: int| 0 <= b < n && #[trigger] bv[b].contains(r) ==> wl.contains(b as usize)
}

/// The phi nodes placed so far: for the registers before position `ri` of
/// `regs`, exactly at their iterated frontiers; for `r`, where `added`
/// says.
pub open spec fn phis_match(phis: Seq<Vec<SsaPhiNode>>, dv: Seq<Seq<usize>>, bv: Seq<Seq<u32>>, regs: Seq<u32>, ri: int, r: u32, added: Seq<bool>, n: int) -> bool {
    forall|y: int, r2: u32| 0 <= y < n ==> (#[trigger] has_phi_for(phis[y]@, r2) <==>
        if r2 == r { added[y] } else { (exists|i: int| 0 <= i < ri && regs[i] == r2) && in_idf(dv, bv, r2, y) })
}

proof fn lemma_chain_closed(dv: Seq<Seq<usize>>, bv: Seq<Seq<u32>>, r: u32, wl: Seq<usize>, added: Seq<bool>, n: int, w: Seq<int>)
    requires
        df_chain(dv, bv, r, w),
        dv.len() == n,
        bv.len() == n,
        n <= usize::MAX,
        added.len() == n,
        forall|b: int| 0 <= b < n && #[trigger] bv[b].contains(r) ==> wl.contains(b as usize),
        forall|y: int| 0 <= y < n && #[trigger] added[y] ==> wl.contains(y as usize),
        forall|k2: int, z: usize| 0 <= k2 < wl.len() && z < n && #[trigger] dv[wl[k2] as int].contains(z) ==> added[z as int],
        forall|x: int, i: int| 0 <= x < n && 0 <= i < dv[x].len() ==> #[trigger] dv[x][i] < n,
    ensures
        0 <= w.last() < n,
        added[w.last()],
    decreases w.len(),
{
    let m = w.len();
    let x = w[m - 2];
    if m == 2 {
        assert(wl.contains(x as usize));
    } else {
        let w2 = w.drop_last();
        assert forall|i: int| 0 <= i < w2.len() - 1 implies 0 <= #[trigger] w2[i] < dv.len() && 0 <= w2[i + 1] < dv.len() && dv[w2[i]].contains(w2[i + 1] as usize) by {
            assert(w2[i] == w[i] && w2[i + 1] == w[i + 1]);
        }
        lemma_chain_closed(dv, bv, r, wl, added, n, w2);
        assert(wl.contains(x as usize));
    }
    assert(0 <= x < dv.len() && 0 <= w[m - 1] < dv.len() && dv[x].contains(w[m - 1] as usize));
    let k2 = choose|k2: int| 0 <= k2 < wl.len() && wl[k2] == x as usize;
    assert(wl[k2] as int == x);
    assert(dv[wl[k2] as int].contains(w[m - 1] as usize));
    assert(added[(w[m - 1] as usize) as int]);
}

/// Places phi nodes: for each register, in increasing order, every block in
/// the iterated dominance frontier of the blocks that define it gets one.
#[verifier::spinoff_prover]
fn place_phis(df: &Vec<Vec<usize>>, bdefs: &Vec<Vec<u32>>, all_regs: &Vec<u32>, Ghost(post): Ghost<Seq<usize>>) -> (phis: Vec<Vec<SsaPhiNode>>)
    requires
        frontier_lists(view_lists(df@), post, df@.len() as int),
        bdefs@.len() == df@.len(),
        strictly_sorted(all_regs@),
        forall|b: int, r: u32| 0 <= b < bdefs@.len() && #[trigger] bdefs@[b]@.contains(r) ==> all_regs@.contains(r),
    ensures
        placed_lists(phis@, df@.len() as int, all_regs@.len() as int),
        forall|y: int, r: u32| 0 <= y < df@.len() ==> (#[trigger] has_phi_for(phis@[y]@, r) <==> in_idf(view_lists(df@), reg_lists(bdefs@), r, y)),
{
    let n = df.len();
    let ghost dv = view_lists(df@);
    let ghost bv = reg_lists(bdefs@);
    let mut phis: Vec<Vec<SsaPhiNode>> = Vec::new();
    let mut i: usize = 0;
    while i < n
        invariant
            i <= n,
            phis@.len() == i,
            forall|q: int| 0 <= q < i ==> (#[trigger] phis@[q])@ == Seq::<SsaPhiNode>::empty(),
        decreases n - i,
    {
        phis.push(Vec::new());
        i = i + 1;
    }
    let mut ri: usize = 0;
    while ri < all_regs.len()
        invariant
            n == df@.len(),
            dv == view_lists(df@),
            frontier_lists(dv, post, n as int),
            bdefs@.len() == n,
            strictly_sorted(all_regs@),
            ri <= all_regs@.len(),
            placed_lists(phis@, n as int, ri as int),
            ri < all_regs@.len() ==> forall|y: int, j: int| 0 <= y < n && 0 <= j < phis@[y]@.len() ==> (#[trigger] phis@[y]@[j]).original_reg.0 < all_regs@[ri as int],
            bv == reg_lists(bdefs@),
            forall|y: int, r2: u32| 0 <= y < n ==> (#[trigger] has_phi_for(phis@[y]@, r2) <==>
                (exists|i: int| 0 <= i < ri && all_regs@[i] == r2) && in_idf(dv, bv, r2, y)),
        decreases all_regs@.len() - ri,
    {
        let r = all_regs[ri];
        let mut wl: Vec<usize> = Vec::new();
        let mut b: usize = 0;
        while b < n
            invariant
                b <= n,
                bdefs@.len() == n,
                bv == reg_lists(bdefs@),
                forall|q: int| 0 <= q < wl@.len() ==> #[trigger] wl@[q] < n && bv[wl@[q] as int].contains(r),
                forall|b2: int| 0 <= b2 < b && #[trigger] bv[b2].contains(r) ==> wl@.contains(b2 as usize),
            decreases n - b,
        {
            assert(bv[b as int] == bdefs@[b as int]@);
            let ghost w0 = wl@;
            if reg_list_contains(&bdefs[b], r) {
                wl.push(b);
                assert(wl@[w0.len() as int] == b);
            }
            proof {
                assert forall|b2: int| 0 <= b2 < b + 1 && #[trigger] bv[b2].contains(r) implies wl@.contains(b2 as usize) by {
                    if b2 < b {
                        let q = choose|q: int| 0 <= q < w0.len() && w0[q] == b2 as usize;
                        assert(wl@[q] == b2 as usize);
                    }
                }
            }
            b = b + 1;
        }
        proof {
            assert forall|y: int, r2: u32| 0 <= y < n implies (#[trigger] has_phi_for(phis@[y]@, r2) <==>
                if r2 == r { false } else { (exists|i: int| 0 <= i < ri && all_regs@[i] == r2) && in_idf(dv, bv, r2, y) }) by {
                if r2 == r && has_phi_for(phis@[y]@, r2) {
                    let i = choose|i: int| 0 <= i < ri && all_regs@[i] == r2;
                    assert(all_regs@[i] < all_regs@[ri as int]);
                }
            }
        }
        let mut added: Vec<bool> = Vec::new();
        let mut q: usize = 0;
        while q < n
            invariant
                q <= n,
                added@.len() == q,
                forall|k: int| 0 <= k < q ==> !(#[trigger] added@[k]),
            decreases n - q,
        {
            added.push(false);
            q = q + 1;
        }
        let mut head: usize = 0;
        proof {
            lemma_num_false_covers(added@, added@);
            assert(worklist_ok(dv, bv, r, wl@, added@, n as int));
            assert(phis_match(phis@, dv, bv, all_regs@, ri as int, r, added@, n as int));
        }
        while head < wl.len()
            invariant
                worklist_ok(dv, bv, r, wl@, added@, n as int),
                phis_match(phis@, dv, bv, all_regs@, ri as int, r, added@, n as int),
                bv.len() == n,
                forall|k2: int, z: usize| 0 <= k2 < head && z < n && #[trigger] dv[wl@[k2] as int].contains(z) ==> added@[z as int],
                bv == reg_lists(bdefs@),
                r == all_regs@[ri as int],
                ri < all_regs@.len(),
                n == df@.len(),
                dv == view_lists(df@),
                frontier_lists(dv, post, n as int),
                added@.len() == n,
                head <= wl@.len(),
                forall|k: int| 0 <= k < wl@.len() ==> #[trigger] wl@[k] < n,
                phis@.len() == n,
                forall|y: int| 0 <= y < n ==> (#[trigger] phis@[y])@.len() <= ri + if added@[y] { 1int } else { 0int },
                forall|y: int, j: int| 0 <= y < n && 0 <= j < phis@[y]@.len() ==> phi_placed(#[trigger] phis@[y]@[j]),
                forall|y: int| 0 <= y < n ==> phis_sorted(#[trigger] phis@[y]@),
                forall|y: int, j: int| 0 <= y < n && 0 <= j < phis@[y]@.len() ==> (#[trigger] phis@[y]@[j]).original_reg.0 <= r,
                forall|y: int, j: int| 0 <= y < n && 0 <= j < phis@[y]@.len() && !added@[y] ==> (#[trigger] phis@[y]@[j]).original_reg.0 < r,
                num_false(added@) >= 0,
            decreases num_false(added@), wl@.len() - head,
        {
            let x = wl[head];
            head = head + 1;
            let ghost a0 = added@;
            let ghost w0 = wl@.len();
            let ghost ws = wl@;
            assert(dv[x as int] == df@[x as int]@);
            let mut k: usize = 0;
            while k < df[x].len()
                invariant
                    worklist_ok(dv, bv, r, wl@, added@, n as int),
                    phis_match(phis@, dv, bv, all_regs@, ri as int, r, added@, n as int),
                    bv == reg_lists(bdefs@),
                    bv.len() == n,
                    r == all_regs@[ri as int],
                    ri < all_regs@.len(),
                    1 <= head <= ws.len(),
                    x == ws[head - 1],
                    ws.len() <= wl@.len(),
                    forall|k2: int| 0 <= k2 < ws.len() ==> wl@[k2] == ws[k2],
                    forall|k2: int, z: usize| 0 <= k2 < head - 1 && z < n && #[trigger] dv[ws[k2] as int].contains(z) ==> added@[z as int],
                    forall|m: int| 0 <= m < k ==> #[trigger] added@[dv[x as int][m] as int],
                    n == df@.len(),
                    dv == view_lists(df@),
                    frontier_lists(dv, post, n as int),
                    x < n,
                    k <= dv[x as int].len(),
                    added@.len() == n,
                    head <= wl@.len(),
                    forall|k2: int| 0 <= k2 < wl@.len() ==> #[trigger] wl@[k2] < n,
                    phis@.len() == n,
                    forall|y: int| 0 <= y < n ==> (#[trigger] phis@[y])@.len() <= ri + if added@[y] { 1int } else { 0int },
                    forall|y: int, j: int| 0 <= y < n && 0 <= j < phis@[y]@.len() ==> phi_placed(#[trigger] phis@[y]@[j]),
                    forall|y: int| 0 <= y < n ==> phis_sorted(#[trigger] phis@[y]@),
                    forall|y: int, j: int| 0 <= y < n && 0 <= j < phis@[y]@.len() ==> (#[trigger] phis@[y]@[j]).original_reg.0 <= r,
                    forall|y: int, j: int| 0 <= y < n && 0 <= j < phis@[y]@.len() && !added@[y] ==> (#[trigger] phis@[y]@[j]).original_reg.0 < r,
                    a0.len() == n,
                    covers(added@, a0),
                    num_false(added@) >= 0,
                    num_false(added@) < num_false(a0) || (added@ == a0 && wl@.len() == w0),
                decreases dv[x as int].len() - k,
            {
                assert(df@[x as int]@ == dv[x as int]);
                let y = df[x][k];
                assert(y < n);
                if !added[y] {
                    let ghost before = added@;
                    added.set(y, true);
                    proof {
                        lemma_num_false_covers(added@, before);
                        lemma_num_false_covers(added@, a0);
                    }
                    let ghost pb = phis@[y as int]@;
                    let ghost pall = phis@;
                    phis[y].push(SsaPhiNode { dest: SsaReg { reg: r, version: 0 }, original_reg: Reg(r), incoming: Vec::new() });
                    proof {
                        assert(phis@ == pall.update(y as int, phis@[y as int]));
                        assert(phis@[y as int]@ == pb.push(SsaPhiNode { dest: SsaReg { reg: r, version: 0 }, original_reg: Reg(r), incoming: phis@[y as int]@.last().incoming }));
                        assert forall|y2: int, j: int| 0 <= y2 < n && 0 <= j < phis@[y2]@.len() implies phi_placed(#[trigger] phis@[y2]@[j]) by {
                            if y2 != y as int || j < pb.len() {
                                assert(phis@[y2]@[j] == pall[y2]@[j]);
                            }
                        }
                        assert forall|y2: int| 0 <= y2 < n implies phis_sorted(#[trigger] phis@[y2]@) by {
                            if y2 == y as int {
                                let ps = phis@[y2]@;
                                assert forall|a: int, c: int| 0 <= a < c < ps.len() implies (#[trigger] ps[a]).original_reg.0 < (#[trigger] ps[c]).original_reg.0 by {
                                    assert(ps[a] == pb[a]);
                                    if c < pb.len() {
                                        assert(ps[c] == pb[c]);
                                    } else {
                                        assert(pall[y2]@[a].original_reg.0 < r);
                                    }
                                }
                            } else {
                                assert(phis@[y2] == pall[y2]);
                            }
                        }
                        assert forall|y2: int, j: int| 0 <= y2 < n && 0 <= j < phis@[y2]@.len() implies (#[trigger] phis@[y2]@[j]).original_reg.0 <= r by {
                            if y2 != y as int || j < pb.len() {
                                assert(phis@[y2]@[j] == pall[y2]@[j]);
                            }
                        }
                        assert forall|y2: int, j: int| 0 <= y2 < n && 0 <= j < phis@[y2]@.len() && !added@[y2] implies (#[trigger] phis@[y2]@[j]).original_reg.0 < r by {
                            assert(y2 != y as int);
                            assert(phis@[y2] == pall[y2]);
                        }
                        assert forall|y2: int| 0 <= y2 < n implies (#[trigger] phis@[y2])@.len() <= ri + if added@[y2] { 1int } else { 0int } by {
                            if y2 != y as int {
                                assert(phis@[y2] == pall[y2]);
                            }
                        }
                    }
                    let ghost wb = wl@;
                    wl.push(y);
                    proof {
                        assert(wl@[wb.len() as int] == y);
                        let xi = x as int;
                        // y is in the iterated frontier, through x
                        assert(dv[xi].contains(y)) by {
                            assert(dv[xi][k as int] == y);
                        }
                        if bv[xi].contains(r) {
                            let w = seq![xi, y as int];
                            assert(df_chain(dv, bv, r, w));
                        } else {
                            assert(in_idf(dv, bv, r, xi));
                            let w0c = choose|w: Seq<int>| #[trigger] df_chain(dv, bv, r, w) && w.last() == xi;
                            let w = w0c.push(y as int);
                            assert forall|i: int| 0 <= i < w.len() - 1 implies 0 <= #[trigger] w[i] < dv.len() && 0 <= w[i + 1] < dv.len() && dv[w[i]].contains(w[i + 1] as usize) by {
                                if i < w0c.len() - 1 {
                                    assert(w[i] == w0c[i] && w[i + 1] == w0c[i + 1]);
                                    assert(0 <= w0c[i] < dv.len() && dv[w0c[i]].contains(w0c[i + 1] as usize));
                                } else {
                                    assert(w[i] == xi);
                                }
                            }
                            assert(df_chain(dv, bv, r, w));
                        }
                        assert(in_idf(dv, bv, r, y as int));
                        assert forall|k2: int| 0 <= k2 < wl@.len() implies #[trigger] wl@[k2] < n && (bv[wl@[k2] as int].contains(r) || in_idf(dv, bv, r, wl@[k2] as int)) by {
                            if k2 < wb.len() {
                                assert(wl@[k2] == wb[k2]);
                            }
                        }
                        assert forall|y2: int| 0 <= y2 < n && #[trigger] added@[y2] implies in_idf(dv, bv, r, y2) && wl@.contains(y2 as usize) by {
                            if y2 != y as int {
                                assert(before[y2]);
                                let q = choose|q: int| 0 <= q < wb.len() && wb[q] == y2 as usize;
                                assert(wl@[q] == y2 as usize);
                            }
                        }
                        assert forall|b2: int| 0 <= b2 < n && #[trigger] bv[b2].contains(r) implies wl@.contains(b2 as usize) by {
                            let q = choose|q: int| 0 <= q < wb.len() && wb[q] == b2 as usize;
                            assert(wl@[q] == b2 as usize);
                        }
                        assert forall|y2: int, r2: u32| 0 <= y2 < n implies (#[trigger] has_phi_for(phis@[y2]@, r2) <==>
                            if r2 == r { added@[y2] } else { (exists|i: int| 0 <= i < ri && all_regs@[i] == r2) && in_idf(dv, bv, r2, y2) }) by {
                            if y2 != y as int {
                                assert(phis@[y2] == pall[y2]);
                                assert(added@[y2] == before[y2]);
                            } else {
                                let ps = phis@[y2]@;
                                if has_phi_for(pb, r2) {
                                    let j = choose|j: int| 0 <= j < pb.len() && (#[trigger] pb[j]).original_reg.0 == r2;
                                    assert(ps[j] == pb[j]);
                                }
                                if has_phi_for(ps, r2) {
                                    let j = choose|j: int| 0 <= j < ps.len() && (#[trigger] ps[j]).original_reg.0 == r2;
                                    if j < pb.len() {
                                        assert(ps[j] == pb[j]);
                                    }
                                }
                                assert(ps[pb.len() as int].original_reg.0 == r);
                                assert(!before[y2]);
                                assert(!has_phi_for(pb, r));
                            }
                        }
                    }
                }
                proof {
                    assert(added@[y as int]);
                    assert forall|m: int| 0 <= m < k + 1 implies #[trigger] added@[dv[x as int][m] as int] by {
                        if m == k as int {
                            assert(dv[x as int][m] == y);
                        }
                    }
                }
                k = k + 1;
            }
            proof {
                assert forall|k2: int, z: usize| 0 <= k2 < head && z < n && #[trigger] dv[wl@[k2] as int].contains(z) implies added@[z as int] by {
                    assert(wl@[k2] == ws[k2]);
                    if k2 == head - 1 {
                        let m = choose|m: int| 0 <= m < dv[x as int].len() && dv[x as int][m] == z;
                        assert(added@[dv[x as int][m] as int]);
                    }
                }
            }
        }
        proof {
            assert forall|y: int| 0 <= y < n implies (added@[y] <==> in_idf(dv, bv, r, y)) by {
                if in_idf(dv, bv, r, y) {
                    let w = choose|w: Seq<int>| #[trigger] df_chain(dv, bv, r, w) && w.last() == y;
                    lemma_chain_closed(dv, bv, r, wl@, added@, n as int, w);
                }
            }
            assert forall|y: int, r2: u32| 0 <= y < n implies (#[trigger] has_phi_for(phis@[y]@, r2) <==>
                (exists|i: int| 0 <= i < ri + 1 && all_regs@[i] == r2) && in_idf(dv, bv, r2, y)) by {
                if r2 != r && (exists|i: int| 0 <= i < ri + 1 && all_regs@[i] == r2) {
                    let i = choose|i: int| 0 <= i < ri + 1 && all_regs@[i] == r2;
                    assert(i < ri);
                }
            }
        }
        proof {
            assert forall|y: int, j: int| 0 <= y < n && 0 <= j < phis@[y]@.len() implies (#[trigger] phis@[y]@[j]).original_reg.0 <= r by {}
            if ri + 1 < all_regs@.len() {
                assert(all_regs@[ri as int] < all_regs@[ri + 1]);
            }
        }
        ri = ri + 1;
    }
    proof {
        assert forall|y: int, r: u32| 0 <= y < n implies (#[trigger] has_phi_for(phis@[y]@, r) <==> in_idf(dv, bv, r, y)) by {
            if in_idf(dv, bv, r, y) {
                let w = choose|w: Seq<int>| #[trigger] df_chain(dv, bv, r, w) && w.last() == y;
                assert(bdefs@[w[0]]@.contains(r));
                let i = choose|i: int| 0 <= i < all_regs@.len() && all_regs@[i] == r;
            }
        }
    }
    phis
}

/// `k` steps up the dominator tree from `x`.
pub open spec fn up(idom: Seq<usize>, x: int, k: nat) -> int
    decreases k,
{
    if k == 0 {
        x
    } else {
        up(idom, idom[x] as int, (k - 1) as nat)
    }
}

/// `b` is `x` or one of its dominators in the tree `idom`.
pub open spec fn below(idom: Seq<usize>, x: int, b: int) -> bool {
    exists|k: nat| #[trigger] up(idom, x, k) == b
}

/// Every listed block has an immediate dominator in the tree.
pub open spec fn dom_complete(post: Seq<usize>, po: Seq<usize>, idom: Seq<usize>, entry: int, n: int) -> bool {
    &&& order_facts(post, po, entry, n)
    &&& dom_tree(post, po, idom, entry, n)
    &&& forall|x: int| 0 <= x < n && listed(post, 0, x) ==> #[trigger] idom[x] < n
}

pub proof fn lemma_up_add(idom: Seq<usize>, x: int, a: nat, b: nat)
    ensures
        up(idom, x, a + b) == up(idom, up(idom, x, a), b),
    decreases a,
{
    if a > 0 {
        lemma_up_add(idom, idom[x] as int, (a - 1) as nat, b);
        assert((a + b - 1) as nat == (a - 1) as nat + b);
    }
}

pub proof fn lemma_up_order(post: Seq<usize>, po: Seq<usize>, idom: Seq<usize>, entry: int, n: int, x: int, k: nat)
    requires
        dom_complete(post, po, idom, entry, n),
        0 <= x < n,
        listed(post, 0, x),
    ensures
        0 <= up(idom, x, k) < n,
        listed(post, 0, up(idom, x, k)),
        po[x] <= po[up(idom, x, k)],
        up(idom, x, k) != x ==> po[x] < po[up(idom, x, k)],
    decreases k,
{
    if k > 0 {
        let y = idom[x] as int;
        assert(idom[x] < n);
        lemma_up_order(post, po, idom, entry, n, y, (k - 1) as nat);
        if x == entry {
            assert(y == entry);
        }
    }
}

pub proof fn lemma_below_split(post: Seq<usize>, po: Seq<usize>, idom: Seq<usize>, entry: int, n: int, x: int, b: int, k: nat)
    requires
        dom_complete(post, po, idom, entry, n),
        0 <= x < n,
        listed(post, 0, x),
        up(idom, x, k) == b,
        x != b,
    ensures
        exists|c: int| 0 <= c < n && #[trigger] idom[c] as int == b && c != b && listed(post, 0, c) && below(idom, x, c),
    decreases k,
{
    let y = idom[x] as int;
    assert(idom[x] < n);
    assert(k > 0);
    assert(up(idom, y, (k - 1) as nat) == b);
    if y == b {
        assert(up(idom, x, 0) == x);
        assert(below(idom, x, x));
        assert(idom[x] as int == b);
    } else {
        lemma_below_split(post, po, idom, entry, n, y, b, (k - 1) as nat);
        let c = choose|c: int| 0 <= c < n && #[trigger] idom[c] as int == b && c != b && listed(post, 0, c) && below(idom, y, c);
        let k2 = choose|k2: nat| #[trigger] up(idom, y, k2) == c;
        assert(up(idom, x, k2 + 1) == up(idom, y, k2));
        assert(below(idom, x, c));
    }
}

pub proof fn lemma_below_parent(idom: Seq<usize>, x: int, c: int, b: int)
    requires
        below(idom, x, c),
        idom[c] as int == b,
    ensures
        below(idom, x, b),
{
    let k = choose|k: nat| #[trigger] up(idom, x, k) == c;
    lemma_up_add(idom, x, k, 1);
    assert(up(idom, c, 1) == up(idom, b, 0));
    assert(up(idom, x, k + 1) == b);
}

pub proof fn lemma_below_siblings(post: Seq<usize>, po: Seq<usize>, idom: Seq<usize>, entry: int, n: int, x: int, c1: int, c2: int, b: int)
    requires
        dom_complete(post, po, idom, entry, n),
        0 <= x < n,
        listed(post, 0, x),
        0 <= c1 < n,
        0 <= c2 < n,
        idom[c1] as int == b,
        idom[c2] as int == b,
        c1 != b,
        c2 != b,
        below(idom, x, c1),
        below(idom, x, c2),
    ensures
        c1 == c2,
{
    let k1 = choose|k: nat| #[trigger] up(idom, x, k) == c1;
    let k2 = choose|k: nat| #[trigger] up(idom, x, k) == c2;
    lemma_up_order(post, po, idom, entry, n, x, k1);
    lemma_up_order(post, po, idom, entry, n, x, k2);
    if k1 < k2 {
        lemma_up_add(idom, x, k1, (k2 - k1) as nat);
        assert(up(idom, c1, (k2 - k1) as nat) == up(idom, b, (k2 - k1 - 1) as nat));
        lemma_up_order(post, po, idom, entry, n, b, (k2 - k1 - 1) as nat);
        assert(c2 != entry);
        assert(po[b] > po[c2]);
    } else if k2 < k1 {
        lemma_up_add(idom, x, k2, (k1 - k2) as nat);
        assert(up(idom, c2, (k1 - k2) as nat) == up(idom, b, (k1 - k2 - 1) as nat));
        lemma_up_order(post, po, idom, entry, n, b, (k1 - k2 - 1) as nat);
        assert(c1 != entry);
        assert(po[b] > po[c1]);
    }
}

pub proof fn lemma_not_below_child(post: Seq<usize>, po: Seq<usize>, idom: Seq<usize>, entry: int, n: int, b: int, c: int)
    requires
        dom_complete(post, po, idom, entry, n),
        0 <= b < n,
        listed(post, 0, b),
        0 <= c < n,
        idom[c] as int == b,
        c != b,
    ensures
        !below(idom, b, c),
{
    if below(idom, b, c) {
        let k = choose|k: nat| #[trigger] up(idom, b, k) == c;
        lemma_up_order(post, po, idom, entry, n, b, k);
        assert(c != entry);
        assert(idom[c] < n);
    }
}

pub proof fn lemma_below_entry(post: Seq<usize>, po: Seq<usize>, idom: Seq<usize>, entry: int, n: int, x: int)
    requires
        dom_complete(post, po, idom, entry, n),
        0 <= x < n,
        listed(post, 0, x),
    ensures
        below(idom, x, entry),
    decreases post.len() - po[x],
{
    lemma_order_pos(post, po, entry, n, x);
    if x == entry {
        assert(up(idom, x, 0) == entry);
    } else {
        let y = idom[x] as int;
        assert(idom[x] < n);
        lemma_order_pos(post, po, entry, n, y);
        lemma_below_entry(post, po, idom, entry, n, y);
        let k = choose|k: nat| #[trigger] up(idom, y, k) == entry;
        assert(up(idom, x, k + 1) == up(idom, y, k));
    }
}

pub open spec fn num_some<T>(s: Seq<Option<T>>) -> int
    decreases s.len(),
{
    if s.len() == 0 {
        0
    } else {
        num_some(s.drop_last()) + if s.last() is Some {
            1int
        } else {
            0int
        }
    }
}

pub proof fn lemma_num_some_set<T>(s: Seq<Option<T>>, i: int, v: T)
    requires
        0 <= i < s.len(),
        s[i] is None,
    ensures
        num_some(s.update(i, Some(v))) == num_some(s) + 1,
        0 <= num_some(s) < s.len(),
    decreases s.len(),
{
    let t = s.update(i, Some(v));
    if i == s.len() - 1 {
        assert(t.drop_last() =~= s.drop_last());
        lemma_num_some_bound(s.drop_last());
    } else {
        assert(t.drop_last() =~= s.drop_last().update(i, Some(v)));
        lemma_num_some_set(s.drop_last(), i, v);
    }
}

pub proof fn lemma_num_some_bound<T>(s: Seq<Option<T>>)
    ensures
        0 <= num_some(s) <= s.len(),
    decreases s.len(),
{
    if s.len() > 0 {
        lemma_num_some_bound(s.drop_last());
    }
}

/// `sb` renames `blk` through the version states `sts`: each instruction is
/// renamed in the state the previous one left, then the terminator.
pub open spec fn renames_block(sts: Seq<VersionState>, blk: BasicBlock, sb: SsaBasicBlock) -> bool {
    let m = blk.instructions@.len() as int;
    &&& sts.len() == m + 2
    &&& sb.instructions@.len() == m
    &&& forall|k: int| 0 <= k < m ==> renamed(sts[k], blk.instructions@[k], #[trigger] sb.instructions@[k], sts[k + 1])
    &&& term_renamed(sts[m], blk.terminator, sb.terminator, sts[m + 1])
}

/// Facts about the graph that renaming relies on and never changes: its
/// edges, its dominator tree, the original registers of the phi nodes
/// placed in each block, and a bound `k` on the versions one block hands out.
pub open spec fn rename_ctx(
    tr: SsaTransformer,
    post: Seq<usize>,
    po: Seq<usize>,
    idom: Seq<usize>,
    entry: int,
    origs: Seq<Seq<u32>>,
) -> bool {
    let n = tr.cfg.blocks.entries@.len() as int;
    &&& tr.edges_ok()
    &&& dom_complete(post, po, idom, entry, n)
    &&& origs.len() == n
    &&& n + total_defs(tr.cfg) <= u32::MAX
    &&& forall|b: int, i: int, j: int| 0 <= b < n && 0 <= i < j < origs[b].len() ==> (#[trigger] origs[b][i]) < (#[trigger] origs[b][j])
}

/// The phi lists while renaming: their original registers are fixed, and
/// every incoming value is a version of the phi's register.
pub open spec fn phis_ok(phis: Seq<Vec<SsaPhiNode>>, origs: Seq<Seq<u32>>) -> bool {
    &&& phis.len() == origs.len()
    &&& forall|b: int| 0 <= b < phis.len() ==> (#[trigger] phis[b])@.len() == origs[b].len()
    &&& forall|b: int, j: int| 0 <= b < phis.len() && 0 <= j < phis[b]@.len() ==> (#[trigger] phis[b]@[j]).original_reg.0 == origs[b][j]
    &&& forall|b: int, j: int, q: int|
        0 <= b < phis.len() && 0 <= j < phis[b]@.len() && 0 <= q < phis[b]@[j].incoming@.len() ==> (#[trigger] phis[b]@[j].incoming@[q]).1.reg
            == origs[b][j]
}

/// A renamed block: its id, its phi nodes defining versions of their
/// registers, and its instructions and terminator renamed in sequence.
pub open spec fn filled_ok(cfg: CFG, origs: Seq<Seq<u32>>, x: int, sb: SsaBasicBlock) -> bool {
    &&& sb.id == cfg.blocks.entries@[x].0
    &&& sb.phi_nodes@.len() == origs[x].len()
    &&& forall|j: int| 0 <= j < sb.phi_nodes@.len() ==> (#[trigger] sb.phi_nodes@[j]).original_reg.0 == origs[x][j] && sb.phi_nodes@[j].dest.reg == origs[x][j]
        && sb.phi_nodes@[j].dest.version >= 1
    &&& exists|sts: Seq<VersionState>| #[trigger] renames_block(sts, cfg.blocks.entries@[x].1, sb)
}

pub open spec fn out_ok(out: Seq<Option<SsaBasicBlock>>, cfg: CFG, post: Seq<usize>, origs: Seq<Seq<u32>>) -> bool {
    &&& out.len() == cfg.blocks.entries@.len()
    &&& forall|x: int| 0 <= x < out.len() && (#[trigger] out[x]) is Some ==> listed(post, 0, x) && filled_ok(cfg, origs, x, out[x].unwrap())
}

/// `v` is the version of `r` current at the end of block `sb`, renamed
/// from `blk` through some sequence of version states.
pub open spec fn exit_reads(blk: BasicBlock, sb: SsaBasicBlock, r: u32, v: SsaReg) -> bool {
    exists|sts: Seq<VersionState>| #[trigger] renames_block(sts, blk, sb) && v == read_reg(sts.last(), r)
}

/// Incoming value `e` of a phi node for register `r` comes from a renamed
/// block `e.0` and is the version of `r` current at that block's end.
pub open spec fn entry_from_exit(es: Seq<(BlockId, BasicBlock)>, out: Seq<Option<SsaBasicBlock>>, e: (BlockId, SsaReg), r: u32) -> bool {
    exists|x: int| 0 <= x < es.len() && x < out.len() && (#[trigger] es[x]).0 == e.0 && out[x] is Some && exit_reads(es[x].1, out[x].unwrap(), r, e.1)
}

/// Every incoming value of every pending phi node comes from the end of a
/// renamed block.
pub open spec fn incoming_ok(phis: Seq<Vec<SsaPhiNode>>, out: Seq<Option<SsaBasicBlock>>, es: Seq<(BlockId, BasicBlock)>) -> bool {
    forall|y: int, j: int, q: int| 0 <= y < phis.len() && 0 <= j < phis[y]@.len() && 0 <= q < phis[y]@[j].incoming@.len()
        ==> entry_from_exit(es, out, #[trigger] phis[y]@[j].incoming@[q], phis[y]@[j].original_reg.0)
}

/// Renamed blocks stay as they are.
pub open spec fn out_kept(a: Seq<Option<SsaBasicBlock>>, b: Seq<Option<SsaBasicBlock>>) -> bool {
    &&& b.len() == a.len()
    &&& forall|x: int| 0 <= x < a.len() && (#[trigger] a[x]) is Some ==> b[x] == a[x]
}

proof fn lemma_incoming_kept(phis: Seq<Vec<SsaPhiNode>>, a: Seq<Option<SsaBasicBlock>>, b: Seq<Option<SsaBasicBlock>>, es: Seq<(BlockId, BasicBlock)>)
    requires
        incoming_ok(phis, a, es),
        out_kept(a, b),
    ensures
        incoming_ok(phis, b, es),
{
    assert forall|y: int, j: int, q: int| 0 <= y < phis.len() && 0 <= j < phis[y]@.len() && 0 <= q < phis[y]@[j].incoming@.len()
        implies entry_from_exit(es, b, #[trigger] phis[y]@[j].incoming@[q], phis[y]@[j].original_reg.0) by {
        let e = phis[y]@[j].incoming@[q];
        let x = choose|x: int| 0 <= x < es.len() && x < a.len() && (#[trigger] es[x]).0 == e.0 && a[x] is Some && exit_reads(es[x].1, a[x].unwrap(), phis[y]@[j].original_reg.0, e.1);
        assert(b[x] == a[x]);
    }
}

/// No register has had more versions than `k` for each block renamed.
/// No register has been handed more versions than there are filled blocks
/// (a phi node each) plus the definitions those blocks make.
pub open spec fn budget_ok(st: VersionState, out: Seq<Option<SsaBasicBlock>>, es: Seq<(BlockId, BasicBlock)>) -> bool {
    forall|r: u32| #[trigger] count_of(st, r) <= num_some(out) + filled_defs(out, es)
}

/// The definitions made by the blocks of `es` whose slot in `out` is filled.
pub open spec fn filled_defs(out: Seq<Option<SsaBasicBlock>>, es: Seq<(BlockId, BasicBlock)>) -> int
    decreases out.len(),
{
    if out.len() == 0 {
        0
    } else {
        filled_defs(out.drop_last(), es) + if out.last() is Some {
            block_defs(es[out.len() - 1].1)
        } else {
            0
        }
    }
}

pub proof fn lemma_filled_set(out: Seq<Option<SsaBasicBlock>>, es: Seq<(BlockId, BasicBlock)>, i: int, v: SsaBasicBlock)
    requires
        0 <= i < out.len(),
        out[i] is None,
    ensures
        filled_defs(out.update(i, Some(v)), es) == filled_defs(out, es) + block_defs(es[i].1),
    decreases out.len(),
{
    let t = out.update(i, Some(v));
    if i == out.len() - 1 {
        assert(t.drop_last() =~= out.drop_last());
    } else {
        assert(t.drop_last() =~= out.drop_last().update(i, Some(v)));
        lemma_filled_set(out.drop_last(), es, i, v);
    }
}

pub proof fn lemma_filled_bound(out: Seq<Option<SsaBasicBlock>>, es: Seq<(BlockId, BasicBlock)>, i: int)
    requires
        0 <= i < out.len(),
        out.len() <= es.len(),
        out[i] is None,
    ensures
        filled_defs(out, es) + block_defs(es[i].1) <= defs_upto(es, out.len() as int),
        filled_defs(out, es) >= 0,
    decreases out.len(),
{
    let m = out.len() - 1;
    lemma_block_dests(es[m].1);
    lemma_block_dests(es[i].1);
    if i == m {
        lemma_filled_le(out.drop_last(), es);
    } else {
        lemma_filled_bound(out.drop_last(), es, i);
    }
}

pub proof fn lemma_filled_le(out: Seq<Option<SsaBasicBlock>>, es: Seq<(BlockId, BasicBlock)>)
    requires
        out.len() <= es.len(),
    ensures
        0 <= filled_defs(out, es) <= defs_upto(es, out.len() as int),
    decreases out.len(),
{
    if out.len() > 0 {
        lemma_block_dests(es[out.len() - 1].1);
        lemma_filled_le(out.drop_last(), es);
    }
}

pub proof fn lemma_defs_sum_prefix(instrs: Seq<Instruction>, j: int)
    requires
        0 <= j <= instrs.len(),
    ensures
        0 <= defs_sum(instrs.subrange(0, j)) <= defs_sum(instrs),
        j < instrs.len() ==> defs_sum(instrs.subrange(0, j + 1)) == defs_sum(instrs.subrange(0, j)) + defs_of(instrs[j]),
    decreases instrs.len(),
{
    lemma_instr_dests(instrs.subrange(0, j));
    if j < instrs.len() {
        assert(instrs.subrange(0, j + 1).drop_last() =~= instrs.subrange(0, j));
    }
    if j == instrs.len() {
        assert(instrs.subrange(0, j) =~= instrs);
    } else {
        lemma_defs_sum_prefix(instrs.drop_last(), j);
        assert(instrs.drop_last().subrange(0, j) =~= instrs.subrange(0, j));
        lemma_dest_count(instrs.last());
        if j < instrs.len() - 1 {
            assert(instrs.drop_last().subrange(0, j + 1) =~= instrs.subrange(0, j + 1));
        }
    }
}

fn copy_incoming(v: &Vec<(BlockId, SsaReg)>) -> (r: Vec<(BlockId, SsaReg)>)
    ensures
        r@ == v@,
{
    let mut r: Vec<(BlockId, SsaReg)> = Vec::new();
    let mut i: usize = 0;
    while i < v.len()
        invariant
            i <= v@.len(),
            r@ == v@.subrange(0, i as int),
        decreases v@.len() - i,
    {
        r.push(v[i]);
        i = i + 1;
        assert(r@ =~= v@.subrange(0, i as int));
    }
    assert(v@.subrange(0, v@.len() as int) =~= v@);
    r
}

/// The phi nodes of a successor, each with the value this block hands it:
/// the current version of the phi's register.
fn add_incoming(ps: &Vec<SsaPhiNode>, bid: BlockId, vt: &VersionTable) -> (r: Vec<SsaPhiNode>)
    ensures
        r@.len() == ps@.len(),
        forall|j: int| 0 <= j < ps@.len() ==> (#[trigger] r@[j]).dest == ps@[j].dest && r@[j].original_reg == ps@[j].original_reg
            && r@[j].incoming@ == ps@[j].incoming@.push((bid, read_reg(vt.vstate(), ps@[j].original_reg.0))),
{
    let mut r: Vec<SsaPhiNode> = Vec::new();
    let mut j: usize = 0;
    while j < ps.len()
        invariant
            j <= ps@.len(),
            r@.len() == j,
            forall|q: int| 0 <= q < j ==> (#[trigger] r@[q]).dest == ps@[q].dest && r@[q].original_reg == ps@[q].original_reg
                && r@[q].incoming@ == ps@[q].incoming@.push((bid, read_reg(vt.vstate(), ps@[q].original_reg.0))),
        decreases ps@.len() - j,
    {
        let p = &ps[j];
        let mut inc = copy_incoming(&p.incoming);
        inc.push((bid, vt.current_ssa_reg(p.original_reg)));
        r.push(SsaPhiNode { dest: p.dest, original_reg: p.original_reg, incoming: inc });
        j = j + 1;
    }
    r
}

/// Gives the phi nodes placed in a block their fresh versions.
#[verifier::spinoff_prover]
fn define_phis(ps: &Vec<SsaPhiNode>, vt: &mut VersionTable, Ghost(base): Ghost<int>) -> (r: Vec<SsaPhiNode>)
    requires
        old(vt).wf(),
        forall|q: u32| #[trigger] count_of(old(vt).vstate(), q) <= base,
        base + 1 <= u32::MAX,
        phis_sorted(ps@),
    ensures
        final(vt).wf(),
        forall|q: u32| #[trigger] count_of(final(vt).vstate(), q) <= base + 1,
        r@.len() == ps@.len(),
        forall|j: int| 0 <= j < ps@.len() ==> (#[trigger] r@[j]).original_reg == ps@[j].original_reg && r@[j].dest.reg == ps@[j].original_reg.0
            && r@[j].incoming@ == ps@[j].incoming@,
        fresh_in(phi_defs(r@), old(vt).vstate(), final(vt).vstate()),
        all_distinct(phi_defs(r@)),
        grows(old(vt).vstate(), final(vt).vstate()),
        final(vt).vstate() == define_all(old(vt).vstate(), phi_regs(ps@)),
        forall|j: int| 0 <= j < ps@.len() ==> (#[trigger] r@[j]).dest == fresh_reg(define_all(old(vt).vstate(), phi_regs(ps@).take(j)), ps@[j].original_reg.0),
{
    broadcast use crate::ssa::rename::lemma_define_counts;
    let ghost st0 = vt.vstate();
    let ghost regs = phi_regs(ps@);
    let mut r: Vec<SsaPhiNode> = Vec::new();
    let mut j: usize = 0;
    proof {
        assert(phi_defs(r@) =~= Seq::<SsaReg>::empty());
        assert forall|q: u32| #[trigger] count_of(st0, q) <= count_of(vt.vstate(), q) by {}
    }
    while j < ps.len()
        invariant
            j <= ps@.len(),
            vt.wf(),
            base + 1 <= u32::MAX,
            phis_sorted(ps@),
            forall|q: u32| #[trigger] count_of(vt.vstate(), q) <= base + if regs.take(j as int).contains(q) { 1int } else { 0int },
            r@.len() == j,
            forall|q: int| 0 <= q < j ==> (#[trigger] r@[q]).original_reg == ps@[q].original_reg && r@[q].dest.reg == ps@[q].original_reg.0
                && r@[q].incoming@ == ps@[q].incoming@,
            fresh_in(phi_defs(r@), st0, vt.vstate()),
            all_distinct(phi_defs(r@)),
            grows(st0, vt.vstate()),
            regs == phi_regs(ps@),
            vt.vstate() == define_all(st0, regs.take(j as int)),
            forall|q: int| 0 <= q < j ==> (#[trigger] r@[q]).dest == fresh_reg(define_all(st0, regs.take(q)), ps@[q].original_reg.0),
        decreases ps@.len() - j,
    {
        let p = &ps[j];
        proof {
            assert(regs.take(j + 1).drop_last() =~= regs.take(j as int));
            assert(regs.take(j + 1).last() == p.original_reg.0);
        }
        proof {
            assert(!regs.take(j as int).contains(p.original_reg.0)) by {
                if regs.take(j as int).contains(p.original_reg.0) {
                    let i = choose|i: int| 0 <= i < j && #[trigger] regs.take(j as int)[i] == p.original_reg.0;
                    assert(ps@[i].original_reg.0 < ps@[j as int].original_reg.0);
                }
            }
            assert(regs.take(j + 1) =~= regs.take(j as int).push(p.original_reg.0));
        }
        assert(count_of(vt.vstate(), p.original_reg.0) <= base);
        let ghost prev = vt.vstate();
        let ghost r0 = r@;
        let d = vt.define_reg(p.original_reg);
        assert forall|q: u32| #[trigger] count_of(vt.vstate(), q) <= base + if regs.take(j + 1).contains(q) { 1int } else { 0int } by {
            assert(count_of(define(prev, p.original_reg.0), q) <= count_of(prev, q) + 1);
            if q != p.original_reg.0 {
                assert(count_of(vt.vstate(), q) == count_of(prev, q));
                assert(regs.take(j + 1).contains(q) == regs.take(j as int).contains(q));
            } else {
                assert(regs.take(j + 1).contains(q)) by {
                    assert(regs.take(j + 1)[j as int] == q);
                }
            }
        }
        proof {
            lemma_define_fresh(prev, p.original_reg.0);
            lemma_fresh_concat(phi_defs(r0), seq![d], st0, prev, vt.vstate());
            lemma_grows_trans(st0, prev, vt.vstate());
        }
        r.push(SsaPhiNode { dest: d, original_reg: p.original_reg, incoming: copy_incoming(&p.incoming) });
        proof {
            assert(phi_defs(r@) =~= phi_defs(r0) + seq![d]);
            assert forall|q: int| 0 <= q < j + 1 implies (#[trigger] r@[q]).dest == fresh_reg(define_all(st0, regs.take(q)), ps@[q].original_reg.0) by {
                if q < j {
                    assert(r@[q] == r0[q]);
                }
            }
        }
        j = j + 1;
    }
    assert(regs.take(ps@.len() as int) =~= regs);
    r
}

/// The registers of phi nodes, in order.
pub open spec fn phi_regs(ps: Seq<SsaPhiNode>) -> Seq<u32> {
    ps.map_values(|p: SsaPhiNode| p.original_reg.0)
}

/// The states after undefining each of `rs` in turn.
pub open spec fn undefine_all(st: VersionState, rs: Seq<u32>) -> VersionState
    decreases rs.len(),
{
    if rs.len() == 0 {
        st
    } else {
        undefine(undefine_all(st, rs.drop_last()), rs.last())
    }
}

/// The registers an instruction list defines, in order.
pub open spec fn instrs_dest_regs(is: Seq<Instruction>) -> Seq<u32>
    decreases is.len(),
{
    if is.len() == 0 {
        Seq::empty()
    } else {
        instrs_dest_regs(is.drop_last()) + dest_regs_spec(is.last()).map_values(|r: Reg| r.0)
    }
}

/// The registers a terminator defines, in order: a select's case destinations.
pub open spec fn term_dest_regs(t: Terminator) -> Seq<u32> {
    match t {
        Terminator::Select { cases, .. } => cases@.map_values(|c: SelectCase| c.dest.0),
        _ => Seq::empty(),
    }
}

/// The registers whose versions a block makes current, in the order it
/// defines them: its phi nodes, its instructions, its terminator.
pub open spec fn block_dest_regs(ps: Seq<SsaPhiNode>, blk: BasicBlock) -> Seq<u32> {
    ps.map_values(|p: SsaPhiNode| p.original_reg.0) + instrs_dest_regs(blk.instructions@) + term_dest_regs(blk.terminator)
}

proof fn lemma_undefine_push(st: VersionState, rs: Seq<u32>, x: u32)
    ensures
        undefine_all(st, rs.push(x)) == undefine(undefine_all(st, rs), x),
{
    assert(rs.push(x).drop_last() =~= rs);
}

proof fn lemma_undefine_concat(st: VersionState, a: Seq<u32>, b: Seq<u32>)
    ensures
        undefine_all(st, a + b) == undefine_all(undefine_all(st, a), b),
    decreases b.len(),
{
    if b.len() == 0 {
        assert(a + b =~= a);
    } else {
        lemma_undefine_concat(st, a, b.drop_last());
        assert((a + b).drop_last() =~= a + b.drop_last());
    }
}

/// Drops the versions a block made current, in the order the block
/// defined them.
fn pop_block_versions(vt: &mut VersionTable, ps: &Vec<SsaPhiNode>, blk: &BasicBlock)
    requires
        old(vt).wf(),
    ensures
        final(vt).wf(),
        final(vt).vstate().0 == old(vt).vstate().0,
        final(vt).vstate() == undefine_all(old(vt).vstate(), block_dest_regs(ps@, *blk)),
{
    let ghost st0 = vt.vstate();
    let ghost pregs = ps@.map_values(|p: SsaPhiNode| p.original_reg.0);
    let mut j: usize = 0;
    while j < ps.len()
        invariant
            vt.wf(),
            vt.vstate().0 == old(vt).vstate().0,
            j <= ps@.len(),
            pregs == ps@.map_values(|p: SsaPhiNode| p.original_reg.0),
            vt.vstate() == undefine_all(st0, pregs.take(j as int)),
        decreases ps@.len() - j,
    {
        proof {
            lemma_undefine_push(st0, pregs.take(j as int), ps@[j as int].original_reg.0);
            assert(pregs.take(j as int).push(ps@[j as int].original_reg.0) =~= pregs.take(j + 1));
        }
        vt.pop_version(ps[j].original_reg.0);
        j = j + 1;
    }
    assert(pregs.take(j as int) =~= pregs);
    let ghost st1 = vt.vstate();
    let mut k: usize = 0;
    while k < blk.instructions.len()
        invariant
            vt.wf(),
            vt.vstate().0 == old(vt).vstate().0,
            k <= blk.instructions@.len(),
            vt.vstate() == undefine_all(st1, instrs_dest_regs(blk.instructions@.take(k as int))),
        decreases blk.instructions@.len() - k,
    {
        let ds = dest_regs(&blk.instructions[k]);
        let ghost dregs = ds@.map_values(|r: Reg| r.0);
        let ghost stk = vt.vstate();
        let mut q: usize = 0;
        while q < ds.len()
            invariant
                vt.wf(),
                vt.vstate().0 == old(vt).vstate().0,
                q <= ds@.len(),
                dregs == ds@.map_values(|r: Reg| r.0),
                vt.vstate() == undefine_all(stk, dregs.take(q as int)),
            decreases ds@.len() - q,
        {
            proof {
                lemma_undefine_push(stk, dregs.take(q as int), ds@[q as int].0);
                assert(dregs.take(q as int).push(ds@[q as int].0) =~= dregs.take(q + 1));
            }
            vt.pop_version(ds[q].0);
            q = q + 1;
        }
        proof {
            assert(dregs.take(q as int) =~= dregs);
            let pre = blk.instructions@.take(k as int);
            let nxt = blk.instructions@.take(k + 1);
            assert(nxt.drop_last() =~= pre);
            assert(nxt.last() == blk.instructions@[k as int]);
            lemma_undefine_concat(st1, instrs_dest_regs(pre), dregs);
        }
        k = k + 1;
    }
    assert(blk.instructions@.take(k as int) =~= blk.instructions@);
    let ghost st2 = vt.vstate();
    match &blk.terminator {
        Terminator::Select { cases, .. } => {
            let ghost cregs = cases@.map_values(|c: SelectCase| c.dest.0);
            let mut q: usize = 0;
            while q < cases.len()
                invariant
                    vt.wf(),
                    vt.vstate().0 == old(vt).vstate().0,
                    q <= cases@.len(),
                    cregs == cases@.map_values(|c: SelectCase| c.dest.0),
                    vt.vstate() == undefine_all(st2, cregs.take(q as int)),
                decreases cases@.len() - q,
            {
                proof {
                    lemma_undefine_push(st2, cregs.take(q as int), cases@[q as int].dest.0);
                    assert(cregs.take(q as int).push(cases@[q as int].dest.0) =~= cregs.take(q + 1));
                }
                vt.pop_version(cases[q].dest.0);
                q = q + 1;
            }
            assert(cregs.take(q as int) =~= cregs);
        },
        _ => {
            assert(undefine_all(st2, term_dest_regs(blk.terminator)) == st2);
        },
    }
    proof {
        lemma_undefine_concat(st0, pregs, instrs_dest_regs(blk.instructions@));
        lemma_undefine_concat(st0, pregs + instrs_dest_regs(blk.instructions@), term_dest_regs(blk.terminator));
    }
}

pub proof fn lemma_num_some_lt<T>(s: Seq<Option<T>>, i: int)
    requires
        0 <= i < s.len(),
        s[i] is None,
    ensures
        0 <= num_some(s) < s.len(),
    decreases s.len(),
{
    if i == s.len() - 1 {
        lemma_num_some_bound(s.drop_last());
    } else {
        lemma_num_some_lt(s.drop_last(), i);
    }
}

pub proof fn lemma_term_counts(st0: VersionState, t: Terminator, s: SsaTerminator, st1: VersionState)
    requires
        term_renamed(st0, t, s, st1),
        version_room(st0, term_defs(t)),
    ensures
        forall|q: u32| #[trigger] count_of(st1, q) <= count_of(st0, q) + term_defs(t),
{
    match t {
        Terminator::Select { cases, .. } => {
            assert(ir_cases(cases@).len() == cases@.len());
            crate::ssa::rename::lemma_define_cases_counts(st0, ir_cases(cases@));
        },
        _ => {},
    }
}

/// Renaming a terminator hands out fresh, distinct versions for the
/// results of its select arms.
pub proof fn lemma_term_fresh(st0: VersionState, t: Terminator, s: SsaTerminator, st1: VersionState)
    requires
        term_renamed(st0, t, s, st1),
        version_room(st0, term_defs(t)),
    ensures
        fresh_in(ssa_term_defs(s), st0, st1),
        all_distinct(ssa_term_defs(s)),
        grows(st0, st1),
{
    match t {
        Terminator::Select { cases, .. } => {
            assert(ir_cases(cases@).len() == cases@.len());
            lemma_define_cases_fresh(st0, ir_cases(cases@));
            match s {
                SsaTerminator::Select { cases: cs2, .. } => {
                    assert(ssa_term_defs(s) =~= define_cases(st0, ir_cases(cases@)).1.map_values(|c: SsaSelectCase| c.dest));
                },
                _ => {},
            }
        },
        _ => {
            assert(ssa_term_defs(s) =~= Seq::<SsaReg>::empty());
            assert forall|q: u32| #[trigger] count_of(st0, q) <= count_of(st1, q) by {}
        },
    }
}

/// `x` lies in the subtree of one of the first `c` blocks that `b`
/// immediately dominates.
pub open spec fn done_child(idom: Seq<usize>, b: int, c: int, x: int) -> bool {
    exists|c2: int| 0 <= c2 < c && #[trigger] idom[c2] as int == b && c2 != b && below(idom, x, c2)
}

/// Which blocks are renamed while the children of `b` are visited.
pub open spec fn filled_by(out0: Seq<Option<SsaBasicBlock>>, out: Seq<Option<SsaBasicBlock>>, post: Seq<usize>, idom: Seq<usize>, b: int, c: int) -> bool {
    forall|x: int|
        0 <= x < out.len() ==> ((#[trigger] out[x]) is Some <==> (out0[x] is Some || x == b || (listed(post, 0, x) && done_child(idom, b, c, x))))
}

pub proof fn lemma_child_fresh(
    post: Seq<usize>, po: Seq<usize>, idom: Seq<usize>, entry: int, n: int,
    out0: Seq<Option<SsaBasicBlock>>, out: Seq<Option<SsaBasicBlock>>, b: int, c: int,
)
    requires
        dom_complete(post, po, idom, entry, n),
        0 <= b < n,
        listed(post, 0, b),
        0 <= c < n,
        idom[c] as int == b,
        c != b,
        out.len() == n,
        forall|x: int| 0 <= x < n && listed(post, 0, x) && below(idom, x, b) ==> (#[trigger] out0[x]) is None,
        filled_by(out0, out, post, idom, b, c),
    ensures
        forall|x: int| 0 <= x < out.len() && listed(post, 0, x) && below(idom, x, c) ==> (#[trigger] out[x]) is None,
{
    assert forall|x: int| 0 <= x < out.len() && listed(post, 0, x) && below(idom, x, c) implies (#[trigger] out[x]) is None by {
        lemma_below_parent(idom, x, c, b);
        assert(out0[x] is None);
        if x == b {
            lemma_not_below_child(post, po, idom, entry, n, b, c);
        }
        if done_child(idom, b, c, x) {
            let c2 = choose|c2: int| 0 <= c2 < c && #[trigger] idom[c2] as int == b && c2 != b && below(idom, x, c2);
            lemma_below_siblings(post, po, idom, entry, n, x, c2, c, b);
        }
    }
}

pub proof fn lemma_child_done(
    post: Seq<usize>, idom: Seq<usize>,
    out0: Seq<Option<SsaBasicBlock>>, out_c: Seq<Option<SsaBasicBlock>>, out: Seq<Option<SsaBasicBlock>>, b: int, c: int,
)
    requires
        filled_by(out0, out_c, post, idom, b, c),
        out.len() == out_c.len(),
        forall|x: int| 0 <= x < out.len() ==> ((#[trigger] out[x]) is Some <==> (out_c[x] is Some || (listed(post, 0, x) && below(idom, x, c)))),
        idom[c] as int == b,
        c != b,
        0 <= c,
    ensures
        filled_by(out0, out, post, idom, b, c + 1),
{
    assert forall|x: int| 0 <= x < out.len() implies ((#[trigger] out[x]) is Some <==> (out0[x] is Some || x == b || (listed(post, 0, x) && done_child(idom, b, c + 1, x)))) by {
        if out[x] is Some && !(out_c[x] is Some) {
            assert(done_child(idom, b, c + 1, x));
        }
        if listed(post, 0, x) && done_child(idom, b, c + 1, x) {
            let c2 = choose|c2: int| 0 <= c2 < c + 1 && #[trigger] idom[c2] as int == b && c2 != b && below(idom, x, c2);
            if c2 < c {
                assert(done_child(idom, b, c, x));
                assert(out_c[x] is Some);
            }
        }
        if out_c[x] is Some && !(out0[x] is Some) && x != b {
            let c2 = choose|c2: int| 0 <= c2 < c && #[trigger] idom[c2] as int == b && c2 != b && below(idom, x, c2);
            assert(done_child(idom, b, c + 1, x));
        }
    }
}

pub proof fn lemma_child_skip(
    post: Seq<usize>, idom: Seq<usize>,
    out0: Seq<Option<SsaBasicBlock>>, out: Seq<Option<SsaBasicBlock>>, b: int, c: int,
)
    requires
        filled_by(out0, out, post, idom, b, c),
        !(idom[c] as int == b && c != b),
        0 <= c,
    ensures
        filled_by(out0, out, post, idom, b, c + 1),
{
    assert forall|x: int| 0 <= x < out.len() implies ((#[trigger] out[x]) is Some <==> (out0[x] is Some || x == b || (listed(post, 0, x) && done_child(idom, b, c + 1, x)))) by {
        if done_child(idom, b, c + 1, x) {
            let c2 = choose|c2: int| 0 <= c2 < c + 1 && #[trigger] idom[c2] as int == b && c2 != b && below(idom, x, c2);
            assert(c2 != c);
            assert(done_child(idom, b, c, x));
        }
        if done_child(idom, b, c, x) {
            let c2 = choose|c2: int| 0 <= c2 < c && #[trigger] idom[c2] as int == b && c2 != b && below(idom, x, c2);
            assert(done_child(idom, b, c + 1, x));
        }
    }
}

pub proof fn lemma_children_all(
    post: Seq<usize>, po: Seq<usize>, idom: Seq<usize>, entry: int, n: int,
    out0: Seq<Option<SsaBasicBlock>>, out: Seq<Option<SsaBasicBlock>>, b: int,
)
    requires
        dom_complete(post, po, idom, entry, n),
        0 <= b < n,
        listed(post, 0, b),
        out.len() == n,
        filled_by(out0, out, post, idom, b, n),
    ensures
        forall|x: int| 0 <= x < out.len() ==> ((#[trigger] out[x]) is Some <==> (out0[x] is Some || (listed(post, 0, x) && below(idom, x, b)))),
{
    assert forall|x: int| 0 <= x < out.len() implies ((#[trigger] out[x]) is Some <==> (out0[x] is Some || (listed(post, 0, x) && below(idom, x, b)))) by {
        if listed(post, 0, x) && below(idom, x, b) && x != b {
            let kk = choose|kk: nat| #[trigger] up(idom, x, kk) == b;
            lemma_below_split(post, po, idom, entry, n, x, b, kk);
            let c2 = choose|c2: int| 0 <= c2 < n && #[trigger] idom[c2] as int == b && c2 != b && listed(post, 0, c2) && below(idom, x, c2);
            assert(done_child(idom, b, n, x));
        }
        if x == b {
            assert(up(idom, b, 0) == b);
            assert(below(idom, b, b));
        }
        if out[x] is Some && !(out0[x] is Some) && x != b {
            let c2 = choose|c2: int| 0 <= c2 < n && #[trigger] idom[c2] as int == b && c2 != b && below(idom, x, c2);
            lemma_below_parent(idom, x, c2, b);
        }
    }
}

/// No instruction of the graph defines `r` by a system call.
pub open spec fn no_syscall_def(cfg: CFG, r: u32) -> bool {
    forall|x: int, q: int| 0 <= x < cfg.blocks.entries@.len() && 0 <= q < cfg.blocks.entries@[x].1.instructions@.len()
        ==> !#[trigger] syscall_defines(cfg.blocks.entries@[x].1.instructions@[q], r)
}

/// `a` and `b` have the same version stacks for every register that no
/// system call defines.
pub open spec fn stacks_agree(cfg: CFG, a: VersionState, b: VersionState) -> bool {
    forall|r: u32| #[trigger] no_syscall_def(cfg, r) ==> stack_of(a, r) == stack_of(b, r)
}

/// The version states of renamed block `x` (`sb`): `st.0` when it starts,
/// `st.1` once its phi nodes have defined fresh versions of their
/// registers, in order, and `st.2` at its end; its instructions and
/// terminator are renamed from `st.1` to `st.2`.
pub open spec fn block_states_ok(cfg: CFG, x: int, sb: SsaBasicBlock, st: (VersionState, VersionState, VersionState)) -> bool {
    &&& st.1 == define_all(st.0, phi_regs(sb.phi_nodes@))
    &&& forall|j: int| 0 <= j < sb.phi_nodes@.len() ==> (#[trigger] sb.phi_nodes@[j]).dest
        == fresh_reg(define_all(st.0, phi_regs(sb.phi_nodes@).take(j)), sb.phi_nodes@[j].original_reg.0)
    &&& exists|sts: Seq<VersionState>| #[trigger] renames_block(sts, cfg.blocks.entries@[x].1, sb) && sts[0] == st.1 && sts.last() == st.2
}

/// The empty version table.
pub open spec fn no_versions() -> VersionState {
    (Map::<u32, u32>::empty(), Map::<u32, Seq<u32>>::empty())
}

/// Every renamed block starts from its immediate dominator's end state
/// (the entry from the empty table), as far as the stacks of registers
/// that no system call defines go.
pub open spec fn flow_ok(cfg: CFG, states: Seq<(VersionState, VersionState, VersionState)>, out: Seq<Option<SsaBasicBlock>>, idom: Seq<usize>, entry: int) -> bool {
    forall|x: int| 0 <= x < out.len() && (#[trigger] out[x]) is Some ==> {
        &&& block_states_ok(cfg, x, out[x].unwrap(), states[x])
        &&& if x == entry {
            stacks_agree(cfg, states[x].0, no_versions())
        } else {
            0 <= idom[x] < out.len() && out[idom[x] as int] is Some && stacks_agree(cfg, states[x].0, states[idom[x] as int].2)
        }
    }
}

/// Renames block `b` and then, in increasing position, the blocks it
/// immediately dominates; afterwards drops the versions `b` made current.
/// Each block's phi nodes define fresh versions first, then its
/// instructions and terminator are renamed in order, and every successor's
/// phi nodes receive the versions current at the end of `b`.
#[verifier::spinoff_prover]
#[verifier::rlimit(80)]
fn rename_block(
    tr: &SsaTransformer,
    b: usize,
    idom: &Vec<usize>,
    phis: &mut Vec<Vec<SsaPhiNode>>,
    out: &mut Vec<Option<SsaBasicBlock>>,
    vt: &mut VersionTable,
    Ghost(post): Ghost<Seq<usize>>,
    Ghost(po): Ghost<Seq<usize>>,
    Ghost(entry): Ghost<int>,
    Ghost(origs): Ghost<Seq<Seq<u32>>>,
    Ghost(from): Ghost<VersionState>,
    states: &mut Ghost<Seq<(VersionState, VersionState, VersionState)>>,
)
    requires
        rename_ctx(*tr, post, po, idom@, entry, origs),
        old(states)@.len() == tr.cfg.blocks.entries@.len(),
        stacks_agree(tr.cfg, old(vt).vstate(), from),
        flow_ok(tr.cfg, old(states)@, old(out)@, idom@, entry),
        if b as int == entry {
            from == no_versions()
        } else {
            0 <= idom@[b as int] < old(out)@.len() && old(out)@[idom@[b as int] as int] is Some && from == old(states)@[idom@[b as int] as int].2
        },
        b < tr.cfg.blocks.entries@.len(),
        listed(post, 0, b as int),
        phis_ok(old(phis)@, origs),
        out_ok(old(out)@, tr.cfg, post, origs),
        forall|x: int| 0 <= x < old(out)@.len() && listed(post, 0, x) && below(idom@, x, b as int) ==> (#[trigger] old(out)@[x]) is None,
        old(vt).wf(),
        budget_ok(old(vt).vstate(), old(out)@, tr.cfg.blocks.entries@),
        defs_counted(old(out)@, old(vt).vstate()),
        defs_unique(old(out)@),
        incoming_ok(old(phis)@, old(out)@, tr.cfg.blocks.entries@),
    ensures
        incoming_ok(final(phis)@, final(out)@, tr.cfg.blocks.entries@),
        out_kept(old(out)@, final(out)@),
        final(states)@.len() == old(states)@.len(),
        forall|x: int| 0 <= x < old(out)@.len() && (#[trigger] old(out)@[x]) is Some ==> final(states)@[x] == old(states)@[x],
        flow_ok(tr.cfg, final(states)@, final(out)@, idom@, entry),
        stacks_agree(tr.cfg, final(vt).vstate(), old(vt).vstate()),
        phis_ok(final(phis)@, origs),
        out_ok(final(out)@, tr.cfg, post, origs),
        defs_counted(final(out)@, final(vt).vstate()),
        defs_unique(final(out)@),
        forall|x: int| 0 <= x < final(out)@.len() ==> ((#[trigger] final(out)@[x]) is Some <==> (old(out)@[x] is Some || (listed(post, 0, x) && below(idom@, x, b as int)))),
        final(vt).wf(),
        budget_ok(final(vt).vstate(), final(out)@, tr.cfg.blocks.entries@),
    decreases po[b as int],
{
    let ghost n = tr.cfg.blocks.entries@.len() as int;
    let ghost out0 = out@;
    let blk = &tr.cfg.blocks.entries[b].1;
    let bid = tr.cfg.blocks.entries[b].0;
    let ghost f = num_some(out@);
    let ghost fd = filled_defs(out@, tr.cfg.blocks.entries@);
    let ghost bdefs = block_defs(*blk);
    proof {
        assert(below(idom@, b as int, b as int)) by {
            assert(up(idom@, b as int, 0) == b as int);
        }
        assert(out@[b as int] is None);
        lemma_num_some_lt(out@, b as int);
        lemma_filled_bound(out@, tr.cfg.blocks.entries@, b as int);
        lemma_instr_dests(blk.instructions@);
        assert(phis_sorted(phis@[b as int]@)) by {
            assert forall|i: int, j: int| 0 <= i < j < phis@[b as int]@.len() implies (#[trigger] phis@[b as int]@[i]).original_reg.0 < (#[trigger] phis@[b as int]@[j]).original_reg.0 by {
                assert(origs[b as int][i] < origs[b as int][j]);
            }
        }
    }
    let ghost st_start = vt.vstate();
    let ghost ps0 = phis@[b as int]@;
    let new_phis = define_phis(&phis[b], vt, Ghost(f + fd));
    let ghost st_phi = vt.vstate();
    proof {
        assert(phi_defs(new_phis@) + instrs_defs(Seq::<SsaInstruction>::empty(), 0) =~= phi_defs(new_phis@));
        assert(phi_regs(new_phis@) =~= phi_regs(ps0));
        assert(blk.instructions@.take(0) =~= Seq::<Instruction>::empty());
        assert(instrs_dest_nums(Seq::<Instruction>::empty()) == Seq::<u32>::empty());
    }
    let ghost base = f + fd + 1;
    let ghost all_i = blk.instructions@;
    let ghost mut sts: Seq<VersionState> = seq![vt.vstate()];
    let mut instrs: Vec<SsaInstruction> = Vec::new();
    let mut i: usize = 0;
    while i < blk.instructions.len()
        invariant
            all_i == blk.instructions@,
            vt.wf(),
            i <= all_i.len(),
            sts.len() == i + 1,
            sts[i as int] == vt.vstate(),
            instrs@.len() == i,
            forall|q: int| 0 <= q < i ==> renamed(sts[q], all_i[q], #[trigger] instrs@[q], sts[q + 1]),
            forall|r: u32| #[trigger] count_of(vt.vstate(), r) <= base + defs_sum(all_i.subrange(0, i as int)),
            base + defs_sum(all_i) + term_defs(blk.terminator) <= u32::MAX,
            fresh_in(phi_defs(new_phis@) + instrs_defs(instrs@, i as int), st_start, vt.vstate()),
            all_distinct(phi_defs(new_phis@) + instrs_defs(instrs@, i as int)),
            grows(st_start, vt.vstate()),
            sts[0] == st_phi,
            vt.vstate() == define_all(st_phi, instrs_dest_nums(all_i.take(i as int))),
        decreases all_i.len() - i,
    {
        proof {
            lemma_defs_sum_prefix(all_i, i as int);
            lemma_defs_sum_prefix(all_i, i + 1);
            lemma_dest_count(all_i[i as int]);
            assert forall|r: u32| #[trigger] count_of(vt.vstate(), r) + defs_of(all_i[i as int]) <= u32::MAX by {
                assert(count_of(vt.vstate(), r) <= base + defs_sum(all_i.subrange(0, i as int)));
            }
        }
        let ghost st_before = vt.vstate();
        let s = vt.rename_instruction(&blk.instructions[i]);
        let ghost sg = s;
        let ghost ins0 = instrs@;
        proof {
            lemma_renamed_defines(st_before, all_i[i as int], s, vt.vstate());
            assert(all_i.take(i + 1).drop_last() =~= all_i.take(i as int));
            assert(all_i.take(i + 1).last() == all_i[i as int]);
            lemma_define_all_concat(st_phi, instrs_dest_nums(all_i.take(i as int)), instr_dest_nums(all_i[i as int]));
            lemma_renamed_counts(st_before, all_i[i as int], s, vt.vstate());
            sts = sts.push(vt.vstate());
            lemma_renamed_fresh(st_before, all_i[i as int], s, vt.vstate());
            lemma_fresh_concat(phi_defs(new_phis@) + instrs_defs(ins0, i as int), ssa_instr_defs(sg), st_start, st_before, vt.vstate());
            lemma_grows_trans(st_start, st_before, vt.vstate());
        }
        instrs.push(s);
        proof {
            lemma_instrs_defs_prefix(instrs@, ins0, i as int);
            assert(instrs@[i as int] == sg);
            assert(instrs_defs(instrs@, i + 1) == instrs_defs(instrs@, i as int) + ssa_instr_defs(sg));
            assert((phi_defs(new_phis@) + instrs_defs(ins0, i as int)) + ssa_instr_defs(sg) =~= phi_defs(new_phis@) + instrs_defs(instrs@, i + 1));
        }
        i = i + 1;
    }
    proof {
        assert(all_i.subrange(0, all_i.len() as int) =~= all_i);
        if term_defs(blk.terminator) > 0 {
        }
        assert forall|r: u32| #[trigger] count_of(vt.vstate(), r) + term_defs(blk.terminator) <= u32::MAX by {
            assert(count_of(vt.vstate(), r) <= base + defs_sum(all_i));
        }
    }
    let ghost st_t = vt.vstate();
    let term = rename_terminator(vt, &blk.terminator);
    proof {
        lemma_term_counts(st_t, blk.terminator, term, vt.vstate());
        sts = sts.push(vt.vstate());
        lemma_term_fresh(st_t, blk.terminator, term, vt.vstate());
        lemma_fresh_concat(phi_defs(new_phis@) + instrs_defs(instrs@, instrs@.len() as int), ssa_term_defs(term), st_start, st_t, vt.vstate());
        lemma_grows_trans(st_start, st_t, vt.vstate());
    }
    let ghost st_end = vt.vstate();
    let ghost all_defs = phi_regs(ps0) + instrs_dest_nums(all_i) + term_dest_regs(blk.terminator);
    proof {
        assert(all_i.take(all_i.len() as int) =~= all_i);
        lemma_term_defines(st_t, blk.terminator, term, st_end);
        lemma_define_all_concat(st_start, phi_regs(ps0), instrs_dest_nums(all_i));
        lemma_define_all_concat(st_start, phi_regs(ps0) + instrs_dest_nums(all_i), term_dest_regs(blk.terminator));
        assert(st_end == define_all(st_start, all_defs));
    }
    let sb = SsaBasicBlock { id: bid, phi_nodes: new_phis, instructions: instrs, terminator: term };
    proof {
        assert(renames_block(sts, *blk, sb));
        assert forall|j: int| 0 <= j < sb.phi_nodes@.len() implies (#[trigger] sb.phi_nodes@[j]).original_reg.0 == origs[b as int][j] && sb.phi_nodes@[j].dest.reg == origs[b as int][j]
            && sb.phi_nodes@[j].dest.version >= 1 by {
            assert(phis@.len() == origs.len());
            assert(phi_defs(new_phis@)[j] == new_phis@[j].dest);
        }
        assert(filled_ok(tr.cfg, origs, b as int, sb));
        lemma_num_some_set(out@, b as int, sb);
        lemma_filled_set(out@, tr.cfg.blocks.entries@, b as int, sb);
    }
    let ghost out_b = out@;
    let ghost sbg = sb;
    let ghost states0 = states@;
    proof {
        assert(sts[0] == st_phi);
        assert(block_states_ok(tr.cfg, b as int, sb, (st_start, st_phi, st_end)));
    }
    proof {
        assert(block_defs_of(sb) == (phi_defs(new_phis@) + instrs_defs(instrs@, instrs@.len() as int)) + ssa_term_defs(term));
        assert(vt.vstate() == st_end);
        lemma_add_block(out@, b as int, sb, st_start, st_end);
    }
    out.set(b, Some(sb));
    *states = Ghost(states@.update(b as int, (st_start, st_phi, st_end)));
    proof {
        assert(out@ == out_b.update(b as int, Some(sb)));
        assert forall|x: int| 0 <= x < out@.len() && (#[trigger] out@[x]) is Some implies {
            &&& block_states_ok(tr.cfg, x, out@[x].unwrap(), states@[x])
            &&& if x == entry {
                stacks_agree(tr.cfg, states@[x].0, no_versions())
            } else {
                0 <= idom@[x] < out@.len() && out@[idom@[x] as int] is Some && stacks_agree(tr.cfg, states@[x].0, states@[idom@[x] as int].2)
            }
        } by {
            if x != b as int {
                assert(out@[x] == out_b[x]);
                assert(states@[x] == states0[x]);
                if x != entry {
                    assert(idom@[x] as int != b as int) by {
                        if idom@[x] as int == b as int {
                            assert(out_b[b as int] is None);
                        }
                    }
                    assert(states@[idom@[x] as int] == states0[idom@[x] as int]);
                }
            } else {
                if x != entry {
                    assert(idom@[x] as int != b as int) by {
                        assert(out_b[idom@[b as int] as int] is Some);
                    }
                    assert(states@[idom@[x] as int] == states0[idom@[x] as int]);
                }
            }
        }
        assert(flow_ok(tr.cfg, states@, out@, idom@, entry));
        assert forall|x: int| 0 <= x < out@.len() && (#[trigger] out@[x]) is Some implies listed(post, 0, x) && filled_ok(tr.cfg, origs, x, out@[x].unwrap()) by {
            if x != b as int {
                assert(out@[x] == out_b[x]);
            }
        }
        assert forall|r: u32| #[trigger] count_of(vt.vstate(), r) <= num_some(out@) + filled_defs(out@, tr.cfg.blocks.entries@) by {
            assert(count_of(vt.vstate(), r) <= count_of(st_t, r) + term_defs(blk.terminator));
        }
        assert(out_kept(out0, out@));
        lemma_incoming_kept(phis@, out0, out@, tr.cfg.blocks.entries@);
        assert(renames_block(sts, *blk, sbg));
    }
    let mut si: usize = 0;
    assert(tr.succ_view()[b as int] == tr.successors@[b as int]@);
    while si < tr.successors[b].len()
        invariant
            tr.edges_ok(),
            b < n,
            n == tr.cfg.blocks.entries@.len(),
            phis_ok(phis@, origs),
            origs.len() == n,
            si <= tr.succ_view()[b as int].len(),
            incoming_ok(phis@, out@, tr.cfg.blocks.entries@),
            out@.len() == n,
            out@[b as int] == Some(sbg),
            tr.cfg.blocks.entries@[b as int].0 == bid,
            tr.cfg.blocks.entries@[b as int].1 == *blk,
            renames_block(sts, *blk, sbg),
            sts.last() == vt.vstate(),
        decreases tr.succ_view()[b as int].len() - si,
    {
        assert(tr.successors@[b as int]@ == tr.succ_view()[b as int]);
        let y = tr.successors[b][si];
        assert(y < n);
        let nv = add_incoming(&phis[y], bid, vt);
        let ghost pv = phis@;
        phis.set(y, nv);
        proof {
            assert forall|y2: int, j: int, q: int| 0 <= y2 < phis@.len() && 0 <= j < phis@[y2]@.len() && 0 <= q < phis@[y2]@[j].incoming@.len()
                implies entry_from_exit(tr.cfg.blocks.entries@, out@, #[trigger] phis@[y2]@[j].incoming@[q], phis@[y2]@[j].original_reg.0) by {
                let r = phis@[y2]@[j].original_reg.0;
                if y2 == y as int {
                    if q < pv[y2]@[j].incoming@.len() {
                        assert(phis@[y2]@[j].incoming@[q] == pv[y2]@[j].incoming@[q]);
                        assert(pv[y2]@[j].original_reg == phis@[y2]@[j].original_reg);
                    } else {
                        assert(phis@[y2]@[j].incoming@[q] == (bid, read_reg(vt.vstate(), pv[y2]@[j].original_reg.0)));
                        assert(exit_reads(tr.cfg.blocks.entries@[b as int].1, out@[b as int].unwrap(), r, phis@[y2]@[j].incoming@[q].1));
                    }
                } else {
                    assert(phis@[y2] == pv[y2]);
                }
            }
            assert forall|b2: int, j: int, q: int|
                0 <= b2 < phis@.len() && 0 <= j < phis@[b2]@.len() && 0 <= q < phis@[b2]@[j].incoming@.len() implies (#[trigger] phis@[b2]@[j].incoming@[q]).1.reg
                    == origs[b2][j] by {
                if b2 == y as int {
                    if q < pv[b2]@[j].incoming@.len() {
                        assert(phis@[b2]@[j].incoming@[q] == pv[b2]@[j].incoming@[q]);
                    }
                } else {
                    assert(phis@[b2] == pv[b2]);
                }
            }
            assert forall|b2: int, j: int| 0 <= b2 < phis@.len() && 0 <= j < phis@[b2]@.len() implies (#[trigger] phis@[b2]@[j]).original_reg.0 == origs[b2][j] by {
                if b2 != y as int {
                    assert(phis@[b2] == pv[b2]);
                }
            }
            assert forall|b2: int| 0 <= b2 < phis@.len() implies (#[trigger] phis@[b2])@.len() == origs[b2].len() by {
                if b2 != y as int {
                    assert(phis@[b2] == pv[b2]);
                }
            }
        }
        si = si + 1;
    }
    let mut c: usize = 0;
    proof {
        assert forall|x: int| 0 <= x < out@.len() implies ((#[trigger] out@[x]) is Some <==> (out0[x] is Some || x == b as int || (listed(post, 0, x) && done_child(idom@, b as int, 0, x)))) by {
            if x != b as int {
                assert(out@[x] == out_b[x]);
            }
        }
    }
    while c < idom.len()
        invariant
            rename_ctx(*tr, post, po, idom@, entry, origs),
            n == tr.cfg.blocks.entries@.len(),
            idom@.len() == n,
            b < n,
            listed(post, 0, b as int),
            c <= n,
            phis_ok(phis@, origs),
            out_ok(out@, tr.cfg, post, origs),
            out0.len() == n,
            out@.len() == n,
            vt.wf(),
            budget_ok(vt.vstate(), out@, tr.cfg.blocks.entries@),
            defs_counted(out@, vt.vstate()),
            defs_unique(out@),
            forall|x: int| 0 <= x < n && listed(post, 0, x) && below(idom@, x, b as int) ==> (#[trigger] out0[x]) is None,
            filled_by(out0, out@, post, idom@, b as int, c as int),
            incoming_ok(phis@, out@, tr.cfg.blocks.entries@),
            out_kept(out0, out@),
            states@.len() == n,
            flow_ok(tr.cfg, states@, out@, idom@, entry),
            stacks_agree(tr.cfg, vt.vstate(), st_end),
            states@[b as int] == (st_start, st_phi, st_end),
            out@[b as int] == Some(sbg),
            forall|x: int| 0 <= x < n && (#[trigger] out0[x]) is Some ==> states@[x] == states0[x],
        decreases n - c,
    {
        if idom[c] == b && c != b {
            proof {
                assert(listed(post, 0, c as int));
                lemma_order_pos(post, po, entry, n, c as int);
                lemma_order_pos(post, po, entry, n, b as int);
                assert(c as int != entry);
                assert(po[b as int] > po[c as int]);
                lemma_child_fresh(post, po, idom@, entry, n, out0, out@, b as int, c as int);
            }
            let ghost out_c = out@;
            let ghost st_c = vt.vstate();
            let ghost states_c = states@;
            rename_block(tr, c, idom, phis, out, vt, Ghost(post), Ghost(po), Ghost(entry), Ghost(origs), Ghost(st_end), states);
            proof {
                assert forall|r: u32| #[trigger] no_syscall_def(tr.cfg, r) implies stack_of(vt.vstate(), r) == stack_of(st_end, r) by {
                    assert(stack_of(vt.vstate(), r) == stack_of(st_c, r));
                }
                assert(states@[b as int] == states_c[b as int]);
                assert forall|x: int| 0 <= x < n && (#[trigger] out0[x]) is Some implies states@[x] == states0[x] by {
                    assert(out_c[x] == out0[x]);
                }
                lemma_child_done(post, idom@, out0, out_c, out@, b as int, c as int);
                assert forall|x: int| 0 <= x < out0.len() && (#[trigger] out0[x]) is Some implies out@[x] == out0[x] by {
                    assert(out_c[x] == out0[x]);
                }
            }
        } else {
            proof {
                lemma_child_skip(post, idom@, out0, out@, b as int, c as int);
            }
        }
        c = c + 1;
    }
    proof {
        lemma_children_all(post, po, idom@, entry, n, out0, out@, b as int);
    }
    let ghost st_p = vt.vstate();
    let ghost ps_pop = phis@[b as int]@;
    pop_block_versions(vt, &phis[b], blk);
    proof {
        assert(phi_regs(ps_pop) =~= phi_regs(ps0)) by {
            assert(ps_pop.len() == origs[b as int].len());
            assert forall|j: int| 0 <= j < ps_pop.len() implies #[trigger] phi_regs(ps_pop)[j] == phi_regs(ps0)[j] by {
                assert(ps_pop[j].original_reg.0 == origs[b as int][j]);
                assert(ps0[j].original_reg.0 == origs[b as int][j]);
            }
        }
        assert(ps_pop.map_values(|p: SsaPhiNode| p.original_reg.0) == phi_regs(ps_pop));
        assert forall|r: u32| #[trigger] no_syscall_def(tr.cfg, r) implies stack_of(vt.vstate(), r) == stack_of(st_start, r) by {
            let pops = block_dest_regs(ps_pop, *blk);
            assert(pops == phi_regs(ps0) + instrs_dest_regs(all_i) + term_dest_regs(blk.terminator));
            assert forall|q: int| 0 <= q < all_i.len() implies !#[trigger] syscall_defines(all_i[q], r) by {
                assert(tr.cfg.blocks.entries@[b as int].1.instructions@[q] == all_i[q]);
            }
            lemma_dest_nums_regs(all_i, r);
            lemma_occurrences_concat(phi_regs(ps0), instrs_dest_nums(all_i), r);
            lemma_occurrences_concat(phi_regs(ps0) + instrs_dest_nums(all_i), term_dest_regs(blk.terminator), r);
            lemma_occurrences_concat(phi_regs(ps0), instrs_dest_regs(all_i), r);
            lemma_occurrences_concat(phi_regs(ps0) + instrs_dest_regs(all_i), term_dest_regs(blk.terminator), r);
            assert(occurrences(pops, r) == occurrences(all_defs, r));
            lemma_define_all_stack(st_start, all_defs, r);
            assert(stack_of(st_p, r) == stack_of(st_end, r));
            lemma_undefine_all_stack(st_p, pops, r);
        }
        assert forall|r: u32| #[trigger] count_of(vt.vstate(), r) <= num_some(out@) + filled_defs(out@, tr.cfg.blocks.entries@) by {
            assert(count_of(vt.vstate(), r) == count_of(st_p, r));
        }
        assert forall|r: u32| #[trigger] count_of(st_p, r) <= count_of(vt.vstate(), r) by {}
        lemma_counted_grows(out@, st_p, vt.vstate());
    }
}

/// `id` names a block reachable from the entry block along the edges
/// `succ` (positions of `cfg`'s block map).
pub open spec fn reachable_id(cfg: CFG, succ: Seq<Seq<usize>>, id: BlockId) -> bool {
    &&& cfg.blocks.has(cfg.entry_block)
    &&& cfg.blocks.has(id)
    &&& reaches(succ, cfg.blocks.pos(cfg.entry_block), cfg.blocks.pos(id))
}

/// `sb` is block `key` of `cfg` in SSA form: same id; its instructions and
/// terminator renamed in sequence; phi nodes by increasing register, each
/// defining a version (1 or more) of its register and receiving versions of it.
pub open spec fn ssa_block_ok(cfg: CFG, key: BlockId, sb: SsaBasicBlock) -> bool {
    &&& sb.id == key
    &&& exists|sts: Seq<VersionState>| #[trigger] renames_block(sts, cfg.blocks.at(key), sb)
    &&& forall|j: int| 0 <= j < sb.phi_nodes@.len() ==> (#[trigger] sb.phi_nodes@[j]).dest.reg == sb.phi_nodes@[j].original_reg.0
        && sb.phi_nodes@[j].dest.version >= 1
    &&& forall|j: int, q: int|
        0 <= j < sb.phi_nodes@.len() && 0 <= q < sb.phi_nodes@[j].incoming@.len() ==> (#[trigger] sb.phi_nodes@[j].incoming@[q]).1.reg
            == sb.phi_nodes@[j].original_reg.0
    &&& forall|a: int, c: int| 0 <= a < c < sb.phi_nodes@.len() ==> (#[trigger] sb.phi_nodes@[a]).original_reg.0 < (#[trigger] sb.phi_nodes@[c]).original_reg.0
}

/// Incoming value `e` of a phi node for register `r` comes from block `e.0`
/// of the SSA graph and is the version of `r` current at that block's end.
pub open spec fn phi_reads_exit(cfg: CFG, out: SsaCFG, e: (BlockId, SsaReg), r: u32) -> bool {
    exists|i: int| 0 <= i < out.blocks.entries@.len() && (#[trigger] out.blocks.entries@[i]).0 == e.0
        && exit_reads(cfg.blocks.at(e.0), out.blocks.entries@[i].1, r, e.1)
}

/// Every incoming value of every phi node of the SSA graph is the version
/// current at the end of the block it comes from.
pub open spec fn phis_read_exits(cfg: CFG, out: SsaCFG) -> bool {
    forall|i: int, j: int, q: int| 0 <= i < out.blocks.entries@.len() && 0 <= j < out.blocks.entries@[i].1.phi_nodes@.len()
        && 0 <= q < out.blocks.entries@[i].1.phi_nodes@[j].incoming@.len()
        ==> phi_reads_exit(cfg, out, #[trigger] out.blocks.entries@[i].1.phi_nodes@[j].incoming@[q], out.blocks.entries@[i].1.phi_nodes@[j].original_reg.0)
}

proof fn lemma_phis_read_exits(
    cfg: CFG,
    vis: Seq<bool>,
    outf: Seq<Option<SsaBasicBlock>>,
    phis: Seq<Vec<SsaPhiNode>>,
    idx: Seq<int>,
    out: SsaCFG,
)
    requires
        cfg.blocks.wf(),
        vis.len() == cfg.blocks.entries@.len(),
        outf.len() == cfg.blocks.entries@.len(),
        forall|y: int| 0 <= y < outf.len() ==> ((#[trigger] outf[y]) is Some <==> vis[y]),
        forall|y: int| 0 <= y < vis.len() && #[trigger] vis[y] ==> out.blocks.has(cfg.blocks.entries@[y].0),
        incoming_ok(phis, outf, cfg.blocks.entries@),
        idx.len() == out.blocks.entries@.len(),
        forall|i: int| 0 <= i < idx.len() ==> 0 <= #[trigger] idx[i] < outf.len() && outf[idx[i]] is Some,
        forall|i: int| 0 <= i < idx.len() ==> (#[trigger] out.blocks.entries@[i]).0 == cfg.blocks.entries@[idx[i]].0
            && out.blocks.entries@[i].1.instructions@ == outf[idx[i]].unwrap().instructions@
            && out.blocks.entries@[i].1.terminator == outf[idx[i]].unwrap().terminator
            && out.blocks.entries@[i].1.phi_nodes@.len() == phis[idx[i]]@.len()
            && forall|j: int| 0 <= j < out.blocks.entries@[i].1.phi_nodes@.len() ==> (#[trigger] out.blocks.entries@[i].1.phi_nodes@[j]).incoming@ == phis[idx[i]]@[j].incoming@
                && out.blocks.entries@[i].1.phi_nodes@[j].original_reg == phis[idx[i]]@[j].original_reg,
        phis.len() == outf.len(),
    ensures
        phis_read_exits(cfg, out),
{
    let es = cfg.blocks.entries@;
    let oe = out.blocks.entries@;
    assert forall|i: int, j: int, q: int| 0 <= i < oe.len() && 0 <= j < oe[i].1.phi_nodes@.len() && 0 <= q < oe[i].1.phi_nodes@[j].incoming@.len()
        implies phi_reads_exit(cfg, out, #[trigger] oe[i].1.phi_nodes@[j].incoming@[q], oe[i].1.phi_nodes@[j].original_reg.0) by {
        let e = oe[i].1.phi_nodes@[j].incoming@[q];
        let r = oe[i].1.phi_nodes@[j].original_reg.0;
        let y = idx[i];
        assert(phis[y]@[j].incoming@[q] == e);
        assert(entry_from_exit(es, outf, phis[y]@[j].incoming@[q], phis[y]@[j].original_reg.0));
        let x = choose|x: int| 0 <= x < es.len() && x < outf.len() && (#[trigger] es[x]).0 == e.0 && outf[x] is Some && exit_reads(es[x].1, outf[x].unwrap(), r, e.1);
        assert(vis[x]);
        assert(out.blocks.has(es[x].0));
        let i2 = choose|i2: int| 0 <= i2 < oe.len() && (#[trigger] oe[i2]).0 == es[x].0;
        let x2 = idx[i2];
        assert(es[x2].0 == es[x].0);
        if x2 < x {
            assert(es[x2].0 < es[x].0);
        } else if x < x2 {
            assert(es[x].0 < es[x2].0);
        }
        cfg.blocks.lemma_pos(x);
        let sts = choose|sts: Seq<VersionState>| #[trigger] renames_block(sts, es[x].1, outf[x].unwrap()) && e.1 == read_reg(sts.last(), r);
        assert(renames_block(sts, es[x].1, oe[i2].1));
        assert(exit_reads(cfg.blocks.at(e.0), oe[i2].1, r, e.1));
    }
}

/// Which blocks, by position, are reachable from the entry block.
pub open spec fn reach_marks(cfg: CFG, succ: Seq<Seq<usize>>) -> Seq<bool> {
    Seq::new(cfg.blocks.entries@.len() as nat, |x: int| cfg.blocks.has(cfg.entry_block) && reaches(succ, cfg.blocks.pos(cfg.entry_block), x))
}

/// Every edge out of a block reachable from the entry block leads to a
/// block of the graph.
pub open spec fn reachable_edges_ok(t: SsaTransformer) -> bool {
    let es = t.cfg.blocks.entries@;
    let pcmap = t.cfg.original_pc_to_block_id@;
    let vis = reach_marks(t.cfg, t.succ_view());
    forall|i: int, k: int| 0 <= i < es.len() && vis[i] && 0 <= k < succ_ids(es[i].1, pcmap).len()
        ==> t.cfg.blocks.has(#[trigger] succ_ids(es[i].1, pcmap)[k])
}

/// The registers each reachable block defines, by position.
pub open spec fn reach_defs(cfg: CFG, vis: Seq<bool>) -> Seq<Seq<u32>> {
    Seq::new(cfg.blocks.entries@.len() as nat, |x: int| if vis[x] { block_dests(cfg.blocks.entries@[x].1) } else { Seq::<u32>::empty() })
}

/// The reachable predecessors of each block, by position.
pub open spec fn reach_preds(t: SsaTransformer, vis: Seq<bool>) -> Seq<Seq<usize>> {
    Seq::new(t.cfg.blocks.entries@.len() as nat, |x: int| keep_marked(t.pred_view()[x], vis))
}

/// `idom` is a tree over the reachable blocks rooted at the entry: each
/// reachable block's parent is reachable, and following parents leads to
/// the entry.
pub open spec fn idom_tree(idom: Seq<usize>, vis: Seq<bool>, entry: int, n: int) -> bool {
    &&& idom.len() == n
    &&& forall|x: int| 0 <= x < n && #[trigger] vis[x] ==> idom[x] < n && vis[idom[x] as int] && below(idom, x, entry)
    &&& (0 <= entry < n ==> idom[entry] == entry)
}

/// Where the phi nodes of `out` stand: with the dominator tree `idom` of
/// the reachable blocks and the dominance frontiers `df` that follow from
/// it, block `x` has a phi node for register `r` exactly when `x` is in the
/// iterated dominance frontier of the reachable blocks that define `r`.
pub open spec fn phis_at_frontiers(t: SsaTransformer, out: SsaCFG, idom: Seq<usize>, df: Seq<Seq<usize>>) -> bool {
    let n = t.cfg.blocks.entries@.len() as int;
    let vis = reach_marks(t.cfg, t.succ_view());
    let entry = t.cfg.blocks.pos(t.cfg.entry_block);
    &&& idom_tree(idom, vis, entry, n)
    &&& df.len() == n
    &&& forall|x: int, y: int| 0 <= x < n && 0 <= y < n ==>
        (df[x].contains(y as usize) <==> #[trigger] frontier_of(reach_preds(t, vis), vis, idom, entry, x, y))
    &&& forall|i: int, r: u32| 0 <= i < out.blocks.entries@.len() ==>
        (#[trigger] has_phi_for(out.blocks.entries@[i].1.phi_nodes@, r) <==> in_idf(df, reach_defs(t.cfg, vis), r, t.cfg.blocks.pos(out.blocks.entries@[i].0)))
}

/// Every block of `out` with a phi node has two or more predecessors that
/// are reachable from the entry block.
pub open spec fn phis_at_joins(t: SsaTransformer, out: SsaCFG) -> bool {
    let vis = reach_marks(t.cfg, t.succ_view());
    forall|i: int| 0 <= i < out.blocks.entries@.len() && (#[trigger] out.blocks.entries@[i]).1.phi_nodes@.len() > 0
        ==> reach_preds(t, vis)[t.cfg.blocks.pos(out.blocks.entries@[i].0)].len() >= 2
}

proof fn lemma_phis_at_joins(t: SsaTransformer, out: SsaCFG, idom: Seq<usize>, df: Seq<Seq<usize>>)
    requires
        phis_at_frontiers(t, out, idom, df),
        forall|i: int| 0 <= i < out.blocks.entries@.len() ==> t.cfg.blocks.has((#[trigger] out.blocks.entries@[i]).0),
    ensures
        phis_at_joins(t, out),
{
    let vis = reach_marks(t.cfg, t.succ_view());
    let entry = t.cfg.blocks.pos(t.cfg.entry_block);
    let defs = reach_defs(t.cfg, vis);
    assert forall|i: int| 0 <= i < out.blocks.entries@.len() && (#[trigger] out.blocks.entries@[i]).1.phi_nodes@.len() > 0
        implies reach_preds(t, vis)[t.cfg.blocks.pos(out.blocks.entries@[i].0)].len() >= 2 by {
        let ps = out.blocks.entries@[i].1.phi_nodes@;
        let r = ps[0].original_reg.0;
        assert(has_phi_for(ps, r));
        let y = t.cfg.blocks.pos(out.blocks.entries@[i].0);
        assert(t.cfg.blocks.has(out.blocks.entries@[i].0));
        assert(in_idf(df, defs, r, y));
        let w = choose|w: Seq<int>| #[trigger] df_chain(df, defs, r, w) && w.last() == y;
        let k = w.len() - 2;
        assert(0 <= w[k] < df.len() && 0 <= w[k + 1] < df.len() && df[w[k]].contains(w[k + 1] as usize));
        assert(w[k + 1] == y);
        assert(frontier_of(reach_preds(t, vis), vis, idom, entry, w[k], y));
    }
}

/// How each block of `out` was renamed: block `x` (by position in `cfg`)
/// with the version states `states[x]` (see `block_states_ok`), starting,
/// for every register that no system call defines, from the end state of
/// its immediate dominator in `idom`, or from the empty table for the entry
/// block.
pub open spec fn blocks_flow(cfg: CFG, out: SsaCFG, idom: Seq<usize>, states: Seq<(VersionState, VersionState, VersionState)>) -> bool {
    let entry = cfg.blocks.pos(cfg.entry_block);
    forall|i: int| 0 <= i < out.blocks.entries@.len() ==> {
        let x = cfg.blocks.pos((#[trigger] out.blocks.entries@[i]).0);
        &&& block_states_ok(cfg, x, out.blocks.entries@[i].1, states[x])
        &&& if x == entry {
            stacks_agree(cfg, states[x].0, no_versions())
        } else {
            stacks_agree(cfg, states[x].0, states[idom[x] as int].2)
        }
    }
}

/// The SSA form `out` of `t`'s graph: phi nodes at the iterated dominance
/// frontiers (see `phis_at_frontiers`), and every block renamed from its
/// immediate dominator's end state extended by its phi nodes (see
/// `blocks_flow`), for the same dominator tree `idom`.
pub open spec fn ssa_shape(t: SsaTransformer, out: SsaCFG, idom: Seq<usize>, df: Seq<Seq<usize>>, states: Seq<(VersionState, VersionState, VersionState)>) -> bool {
    &&& phis_at_frontiers(t, out, idom, df)
    &&& blocks_flow(t.cfg, out, idom, states)
}

proof fn lemma_flow_transfer(
    cfg: CFG,
    outf: Seq<Option<SsaBasicBlock>>,
    states: Seq<(VersionState, VersionState, VersionState)>,
    idx: Seq<int>,
    out: SsaCFG,
    idom: Seq<usize>,
    entry: int,
)
    requires
        cfg.blocks.wf(),
        0 <= entry < cfg.blocks.entries@.len(),
        cfg.blocks.entries@[entry].0 == cfg.entry_block,
        outf.len() == cfg.blocks.entries@.len(),
        flow_ok(cfg, states, outf, idom, entry),
        idx.len() == out.blocks.entries@.len(),
        forall|i: int| 0 <= i < idx.len() ==> 0 <= #[trigger] idx[i] < outf.len() && outf[idx[i]] is Some,
        forall|i: int| 0 <= i < idx.len() ==> (#[trigger] out.blocks.entries@[i]).0 == cfg.blocks.entries@[idx[i]].0
            && out.blocks.entries@[i].1.instructions@ == outf[idx[i]].unwrap().instructions@
            && out.blocks.entries@[i].1.terminator == outf[idx[i]].unwrap().terminator,
        forall|i: int| 0 <= i < idx.len() ==> (#[trigger] out.blocks.entries@[i]).1.phi_nodes@.len() == outf[idx[i]].unwrap().phi_nodes@.len()
            && forall|j: int| 0 <= j < out.blocks.entries@[i].1.phi_nodes@.len() ==> (#[trigger] out.blocks.entries@[i].1.phi_nodes@[j]).dest == outf[idx[i]].unwrap().phi_nodes@[j].dest
                && out.blocks.entries@[i].1.phi_nodes@[j].original_reg == outf[idx[i]].unwrap().phi_nodes@[j].original_reg,
    ensures
        blocks_flow(cfg, out, idom, states),
{
    cfg.blocks.lemma_pos(entry);
    assert forall|i: int| 0 <= i < out.blocks.entries@.len() implies {
        let x = cfg.blocks.pos((#[trigger] out.blocks.entries@[i]).0);
        &&& block_states_ok(cfg, x, out.blocks.entries@[i].1, states[x])
        &&& if x == cfg.blocks.pos(cfg.entry_block) {
            stacks_agree(cfg, states[x].0, no_versions())
        } else {
            stacks_agree(cfg, states[x].0, states[idom[x] as int].2)
        }
    } by {
        let x = idx[i];
        cfg.blocks.lemma_pos(x);
        let sb = outf[x].unwrap();
        let ob = out.blocks.entries@[i].1;
        assert(block_states_ok(cfg, x, sb, states[x]));
        assert(phi_regs(ob.phi_nodes@) =~= phi_regs(sb.phi_nodes@));
        let sts = choose|sts: Seq<VersionState>| #[trigger] renames_block(sts, cfg.blocks.entries@[x].1, sb) && sts[0] == states[x].1 && sts.last() == states[x].2;
        assert(renames_block(sts, cfg.blocks.entries@[x].1, ob));
        assert forall|j: int| 0 <= j < ob.phi_nodes@.len() implies (#[trigger] ob.phi_nodes@[j]).dest
            == fresh_reg(define_all(states[x].0, phi_regs(ob.phi_nodes@).take(j)), ob.phi_nodes@[j].original_reg.0) by {
            assert(ob.phi_nodes@[j].dest == sb.phi_nodes@[j].dest);
        }
        assert(block_states_ok(cfg, x, ob, states[x]));
    }
}

proof fn lemma_out_phis_placed(
    cfg: CFG,
    phis: Seq<Vec<SsaPhiNode>>,
    phis0: Seq<Vec<SsaPhiNode>>,
    origs: Seq<Seq<u32>>,
    idx: Seq<int>,
    out: SsaCFG,
    dv: Seq<Seq<usize>>,
    defs: Seq<Seq<u32>>,
)
    requires
        cfg.blocks.wf(),
        phis0.len() == cfg.blocks.entries@.len(),
        origs == Seq::new(phis0.len(), |x: int| phis0[x]@.map_values(|p: SsaPhiNode| p.original_reg.0)),
        phis_ok(phis, origs),
        forall|y: int, r: u32| 0 <= y < phis0.len() ==> (#[trigger] has_phi_for(phis0[y]@, r) <==> in_idf(dv, defs, r, y)),
        idx.len() == out.blocks.entries@.len(),
        forall|i: int| 0 <= i < idx.len() ==> 0 <= #[trigger] idx[i] < phis0.len(),
        forall|i: int| 0 <= i < idx.len() ==> (#[trigger] out.blocks.entries@[i]).0 == cfg.blocks.entries@[idx[i]].0
            && out.blocks.entries@[i].1.phi_nodes@.len() == phis[idx[i]]@.len()
            && forall|j: int| 0 <= j < out.blocks.entries@[i].1.phi_nodes@.len() ==> (#[trigger] out.blocks.entries@[i].1.phi_nodes@[j]).incoming@ == phis[idx[i]]@[j].incoming@
                && out.blocks.entries@[i].1.phi_nodes@[j].original_reg == phis[idx[i]]@[j].original_reg,
    ensures
        forall|i: int, r: u32| 0 <= i < out.blocks.entries@.len() ==>
            (#[trigger] has_phi_for(out.blocks.entries@[i].1.phi_nodes@, r) <==> in_idf(dv, defs, r, cfg.blocks.pos(out.blocks.entries@[i].0))),
{
    assert forall|i: int, r: u32| 0 <= i < out.blocks.entries@.len() implies
        (#[trigger] has_phi_for(out.blocks.entries@[i].1.phi_nodes@, r) <==> in_idf(dv, defs, r, cfg.blocks.pos(out.blocks.entries@[i].0))) by {
        let x = idx[i];
        cfg.blocks.lemma_pos(x);
        let ps = out.blocks.entries@[i].1.phi_nodes@;
        let p0 = phis0[x]@;
        assert(origs[x] == p0.map_values(|p: SsaPhiNode| p.original_reg.0));
        if has_phi_for(ps, r) {
            let j = choose|j: int| 0 <= j < ps.len() && (#[trigger] ps[j]).original_reg.0 == r;
            assert(ps[j].original_reg == phis[x]@[j].original_reg);
            assert(phis[x]@[j].original_reg.0 == origs[x][j]);
            assert(p0[j].original_reg.0 == r);
        }
        if has_phi_for(p0, r) {
            let j = choose|j: int| 0 <= j < p0.len() && (#[trigger] p0[j]).original_reg.0 == r;
            assert(phis[x]@[j].original_reg.0 == origs[x][j]);
            assert(ps[j].original_reg.0 == r);
        }
    }
}

/// Block id `id` is the id of a marked block among the first `x`.
pub open spec fn marked_before(es: Seq<(BlockId, BasicBlock)>, vis: Seq<bool>, x: int, id: BlockId) -> bool {
    exists|y: int| 0 <= y < x && #[trigger] es[y].0 == id && vis[y]
}

/// For each block, the registers that its instructions and terminator define
/// when it is marked in `vis`, else none; and all of those registers, sorted.
#[verifier::spinoff_prover]
fn reach_def_lists(cfg: &CFG, vis: &Vec<bool>) -> (res: (Vec<Vec<u32>>, Vec<u32>))
    requires
        vis@.len() == cfg.blocks.entries@.len(),
    ensures
        res.0@.len() == vis@.len(),
        strictly_sorted(res.1@),
        res.1@.len() <= defs_upto(cfg.blocks.entries@, vis@.len() as int),
        forall|b2: int, r: u32| 0 <= b2 < res.0@.len() && #[trigger] res.0@[b2]@.contains(r) ==> res.1@.contains(r),
        forall|b2: int| 0 <= b2 < res.0@.len() ==> (#[trigger] res.0@[b2])@ == if vis@[b2] { block_dests(cfg.blocks.entries@[b2].1) } else { Seq::<u32>::empty() },
{
    let n = cfg.blocks.entries.len();
    let ghost es = cfg.blocks.entries@;
    let mut bdefs: Vec<Vec<u32>> = Vec::new();
    let mut all_regs: Vec<u32> = Vec::new();
    let mut b: usize = 0;
    while b < n
        invariant
            n == cfg.blocks.entries@.len(),
            es == cfg.blocks.entries@,
            b <= n,
            vis@.len() == n,
            bdefs@.len() == b,
            strictly_sorted(all_regs@),
            all_regs@.len() <= defs_upto(es, b as int),
            forall|b2: int, r: u32| 0 <= b2 < b && #[trigger] bdefs@[b2]@.contains(r) ==> all_regs@.contains(r),
            forall|b2: int| 0 <= b2 < b ==> (#[trigger] bdefs@[b2])@ == if vis@[b2] { block_dests(es[b2].1) } else { Seq::<u32>::empty() },
        decreases n - b,
    {
        proof {
            lemma_defs_upto(es, b as int, b + 1);
            lemma_block_dests(es[b as int].1);
        }
        let ghost bd0 = bdefs@;
        if vis[b] {
            let ds = block_def_regs(&cfg.blocks.entries[b].1);
            let ghost l0 = all_regs@.len();
            let ghost a0 = all_regs@;
            let mut q: usize = 0;
            while q < ds.len()
                invariant
                    q <= ds@.len(),
                    strictly_sorted(all_regs@),
                    all_regs@.len() <= l0 + q,
                    forall|r: u32| a0.contains(r) ==> all_regs@.contains(r),
                    forall|q2: int| 0 <= q2 < q ==> all_regs@.contains(#[trigger] ds@[q2]),
                decreases ds@.len() - q,
            {
                insert_sorted(&mut all_regs, ds[q]);
                q = q + 1;
            }
            let ghost dsg = ds@;
            bdefs.push(ds);
            proof {
                assert forall|b2: int, r: u32| 0 <= b2 < b + 1 && #[trigger] bdefs@[b2]@.contains(r) implies all_regs@.contains(r) by {
                    if b2 < b {
                        assert(bdefs@[b2] == bd0[b2]);
                    } else {
                        let q2 = choose|q2: int| 0 <= q2 < dsg.len() && dsg[q2] == r;
                        assert(all_regs@.contains(dsg[q2]));
                    }
                }
            }
        } else {
            bdefs.push(Vec::new());
            proof {
                assert forall|b2: int, r: u32| 0 <= b2 < b + 1 && #[trigger] bdefs@[b2]@.contains(r) implies all_regs@.contains(r) by {
                    if b2 < b {
                        assert(bdefs@[b2] == bd0[b2]);
                    }
                }
            }
        }
        proof {
            assert forall|b2: int| 0 <= b2 < b + 1 implies (#[trigger] bdefs@[b2])@ == if vis@[b2] { block_dests(es[b2].1) } else { Seq::<u32>::empty() } by {
                if b2 < b {
                    assert(bdefs@[b2] == bd0[b2]);
                }
            }
        }
        b = b + 1;
    }
    (bdefs, all_regs)
}

impl SsaTransformer {
    /// For each block, its predecessors that are marked in `vis`.
    fn reach_preds_lists(&self, vis: &Vec<bool>, entry: usize, Ghost(post): Ghost<Seq<usize>>) -> (rpreds: Vec<Vec<usize>>)
        requires
            self.edges_ok(),
            post_order_of(self.succ_view(), entry as int, vis@, post),
        ensures
            rpreds@.len() == self.cfg.blocks.entries@.len(),
            forall|q: int| 0 <= q < rpreds@.len() ==> (#[trigger] rpreds@[q])@ == keep_marked(self.pred_view()[q], vis@),
    {
        let n = self.cfg.blocks.entries.len();
        let ghost sv = self.succ_view();
        let mut rpreds: Vec<Vec<usize>> = Vec::new();
        let mut b: usize = 0;
        while b < n
            invariant
                self.edges_ok(),
                n == self.cfg.blocks.entries@.len(),
                sv == self.succ_view(),
                post_order_of(sv, entry as int, vis@, post),
                b <= n,
                rpreds@.len() == b,
                forall|q: int| 0 <= q < b ==> (#[trigger] rpreds@[q])@ == keep_marked(self.pred_view()[q], vis@),
            decreases n - b,
        {
            assert(self.pred_view()[b as int] == self.predecessors@[b as int]@);
            proof {
                lemma_preds_upto(sv, b, n as int);
                assert forall|i: int| 0 <= i < self.predecessors@[b as int]@.len() implies #[trigger] self.predecessors@[b as int]@[i] < vis@.len() by {
                    assert(preds_upto(sv, b, n as int)[i] < n);
                }
            }
            let kp = keep_listed(&self.predecessors[b], vis);
            rpreds.push(kp);
            b = b + 1;
        }
        rpreds
    }
}

fn copy_pc_map(v: &Vec<BlockId>) -> (r: Vec<BlockId>)
    ensures
        r@ == v@,
{
    let mut r: Vec<BlockId> = Vec::new();
    let mut i: usize = 0;
    while i < v.len()
        invariant
            i <= v@.len(),
            r@ == v@.subrange(0, i as int),
        decreases v@.len() - i,
    {
        r.push(v[i]);
        i = i + 1;
        assert(r@ =~= v@.subrange(0, i as int));
    }
    assert(v@.subrange(0, v@.len() as int) =~= v@);
    r
}

/// The SSA blocks of the filled slots of `out`, in id order, each phi node
/// given the incoming values collected in `phis`; with, for each block, the
/// slot it came from.
#[verifier::spinoff_prover]
fn assemble_blocks(
    cfg: &CFG,
    out: Vec<Option<SsaBasicBlock>>,
    phis: &Vec<Vec<SsaPhiNode>>,
    vis: &Vec<bool>,
    Ghost(post): Ghost<Seq<usize>>,
    Ghost(origs): Ghost<Seq<Seq<u32>>>,
) -> (res: (BlockMap<SsaBasicBlock>, Ghost<Seq<int>>))
    requires
        cfg.blocks.wf(),
        out@.len() == cfg.blocks.entries@.len(),
        out_ok(out@, *cfg, post, origs),
        origs.len() == cfg.blocks.entries@.len(),
        vis@.len() == cfg.blocks.entries@.len(),
        phis_ok(phis@, origs),
        forall|y: int| 0 <= y < out@.len() ==> ((#[trigger] out@[y]) is Some <==> vis@[y]),
        forall|y: int| 0 <= y < out@.len() ==> phis_sorted(#[trigger] phis@[y]@),
        defs_unique(out@),
        incoming_ok(phis@, out@, cfg.blocks.entries@),
    ensures
        ({
            let es = cfg.blocks.entries@;
            let outf = out@;
            let blocks = res.0;
            let idx = res.1@;
            &&& blocks.wf()
            &&& forall|i: int| 0 <= i < blocks.entries@.len() ==> marked_before(es, vis@, es.len() as int, (#[trigger] blocks.entries@[i]).0)
            &&& forall|y: int| 0 <= y < es.len() && #[trigger] vis@[y] ==> blocks.has(es[y].0)
            &&& forall|i: int| 0 <= i < blocks.entries@.len() ==> ssa_block_ok(*cfg, (#[trigger] blocks.entries@[i]).0, blocks.entries@[i].1)
            &&& idx.len() == blocks.entries@.len()
            &&& forall|i: int| 0 <= i < idx.len() ==> 0 <= #[trigger] idx[i] < es.len() && outf[idx[i]] is Some
                && block_defs_of(blocks.entries@[i].1) == block_defs_of(outf[idx[i]].unwrap())
            &&& forall|i: int, j: int| 0 <= i < j < idx.len() ==> #[trigger] idx[i] < #[trigger] idx[j]
            &&& forall|i: int| 0 <= i < idx.len() ==> (#[trigger] blocks.entries@[i]).0 == es[idx[i]].0
                && blocks.entries@[i].1.instructions@ == outf[idx[i]].unwrap().instructions@
                && blocks.entries@[i].1.terminator == outf[idx[i]].unwrap().terminator
                && blocks.entries@[i].1.phi_nodes@.len() == phis@[idx[i]]@.len()
                && forall|j: int| 0 <= j < blocks.entries@[i].1.phi_nodes@.len() ==> (#[trigger] blocks.entries@[i].1.phi_nodes@[j]).incoming@ == phis@[idx[i]]@[j].incoming@
                    && blocks.entries@[i].1.phi_nodes@[j].original_reg == phis@[idx[i]]@[j].original_reg
            &&& forall|i: int| 0 <= i < idx.len() ==> (#[trigger] blocks.entries@[i]).1.phi_nodes@.len() == outf[idx[i]].unwrap().phi_nodes@.len()
                && forall|j: int| 0 <= j < blocks.entries@[i].1.phi_nodes@.len() ==> (#[trigger] blocks.entries@[i].1.phi_nodes@[j]).dest == outf[idx[i]].unwrap().phi_nodes@[j].dest
                    && blocks.entries@[i].1.phi_nodes@[j].original_reg == outf[idx[i]].unwrap().phi_nodes@[j].original_reg
        }),
{
    let n = cfg.blocks.entries.len();
    let ghost es = cfg.blocks.entries@;
    let ghost outf = out@;
    let mut out = out;
    let ghost mut idx: Seq<int> = Seq::empty();
    let mut blocks: BlockMap<SsaBasicBlock> = BlockMap::new();
    let mut x: usize = 0;
    while x < n
        invariant
            n == cfg.blocks.entries@.len(),
            es == cfg.blocks.entries@,
            cfg.blocks.wf(),
            x <= n,
            out@.len() == n,
            forall|y: int| x <= y < n ==> (#[trigger] out@[y]) == outf[y],
            out_ok(outf, *cfg, post, origs),
            origs.len() == n,
            vis@.len() == n,
            phis_ok(phis@, origs),
            forall|y: int| 0 <= y < n ==> ((#[trigger] outf[y]) is Some <==> vis@[y]),
            forall|y: int| 0 <= y < n ==> phis_sorted(#[trigger] phis@[y]@),
            blocks.wf(),
            forall|i: int| 0 <= i < blocks.entries@.len() ==> marked_before(es, vis@, x as int, (#[trigger] blocks.entries@[i]).0),
            forall|y: int| 0 <= y < x && #[trigger] vis@[y] ==> blocks.has(es[y].0),
            forall|i: int| 0 <= i < blocks.entries@.len() ==> ssa_block_ok(*cfg, (#[trigger] blocks.entries@[i]).0, blocks.entries@[i].1),
            forall|i: int| 0 <= i < blocks.entries@.len() ==> (#[trigger] blocks.entries@[i]).0 < es[x as int].0 || x == n,
            defs_unique(outf),
            idx.len() == blocks.entries@.len(),
            forall|i: int| 0 <= i < idx.len() ==> 0 <= #[trigger] idx[i] < x && outf[idx[i]] is Some
                && block_defs_of(blocks.entries@[i].1) == block_defs_of(outf[idx[i]].unwrap()),
            forall|i: int, j: int| 0 <= i < j < idx.len() ==> #[trigger] idx[i] < #[trigger] idx[j],
            incoming_ok(phis@, outf, es),
            forall|i: int| 0 <= i < idx.len() ==> (#[trigger] blocks.entries@[i]).0 == es[idx[i]].0
                && blocks.entries@[i].1.instructions@ == outf[idx[i]].unwrap().instructions@
                && blocks.entries@[i].1.terminator == outf[idx[i]].unwrap().terminator
                && blocks.entries@[i].1.phi_nodes@.len() == phis@[idx[i]]@.len()
                && forall|j: int| 0 <= j < blocks.entries@[i].1.phi_nodes@.len() ==> (#[trigger] blocks.entries@[i].1.phi_nodes@[j]).incoming@ == phis@[idx[i]]@[j].incoming@
                    && blocks.entries@[i].1.phi_nodes@[j].original_reg == phis@[idx[i]]@[j].original_reg,
            forall|i: int| 0 <= i < idx.len() ==> (#[trigger] blocks.entries@[i]).1.phi_nodes@.len() == outf[idx[i]].unwrap().phi_nodes@.len()
                && forall|j: int| 0 <= j < blocks.entries@[i].1.phi_nodes@.len() ==> (#[trigger] blocks.entries@[i].1.phi_nodes@[j]).dest == outf[idx[i]].unwrap().phi_nodes@[j].dest
                    && blocks.entries@[i].1.phi_nodes@[j].original_reg == outf[idx[i]].unwrap().phi_nodes@[j].original_reg,
        decreases n - x,
    {
        let mut slot: Option<SsaBasicBlock> = None;
        std::mem::swap(&mut out[x], &mut slot);
        match slot {
            Some(sb) => {
                let ghost sb0 = sb;
                let mut new_phis: Vec<SsaPhiNode> = Vec::new();
                let mut j: usize = 0;
                while j < sb.phi_nodes.len()
                    invariant
                        x < phis@.len(),
                        j <= sb.phi_nodes@.len(),
                        sb.phi_nodes@.len() == phis@[x as int]@.len(),
                        new_phis@.len() == j,
                        forall|q2: int| 0 <= q2 < j ==> (#[trigger] new_phis@[q2]).dest == sb.phi_nodes@[q2].dest
                            && new_phis@[q2].original_reg == sb.phi_nodes@[q2].original_reg
                            && new_phis@[q2].incoming@ == phis@[x as int]@[q2].incoming@,
                    decreases sb.phi_nodes@.len() - j,
                {
                    let p = &sb.phi_nodes[j];
                    new_phis.push(SsaPhiNode { dest: p.dest, original_reg: p.original_reg, incoming: copy_incoming(&phis[x][j].incoming) });
                    j = j + 1;
                }
                let key = cfg.blocks.entries[x].0;
                let nb = SsaBasicBlock { id: sb.id, phi_nodes: new_phis, instructions: sb.instructions, terminator: sb.terminator };
                proof {
                    cfg.blocks.lemma_pos(x as int);
                    assert(filled_ok(*cfg, origs, x as int, sb0));
                    let sts = choose|sts: Seq<VersionState>| #[trigger] renames_block(sts, es[x as int].1, sb0);
                    assert(renames_block(sts, cfg.blocks.at(key), nb));
                    assert forall|a: int, c: int| 0 <= a < c < nb.phi_nodes@.len() implies (#[trigger] nb.phi_nodes@[a]).original_reg.0 < (#[trigger] nb.phi_nodes@[c]).original_reg.0 by {
                        assert(phis@[x as int]@[a].original_reg.0 == origs[x as int][a]);
                        assert(phis@[x as int]@[c].original_reg.0 == origs[x as int][c]);
                    }
                    assert forall|j2: int, q2: int|
                        0 <= j2 < nb.phi_nodes@.len() && 0 <= q2 < nb.phi_nodes@[j2].incoming@.len() implies (#[trigger] nb.phi_nodes@[j2].incoming@[q2]).1.reg
                            == nb.phi_nodes@[j2].original_reg.0 by {
                        assert(nb.phi_nodes@[j2].incoming@[q2] == phis@[x as int]@[j2].incoming@[q2]);
                    }
                    assert(ssa_block_ok(*cfg, key, nb));
                    assert forall|i: int| 0 <= i < blocks.entries@.len() implies (#[trigger] blocks.entries@[i]).0 < key by {
                        assert(marked_before(es, vis@, x as int, blocks.entries@[i].0));
                        let y = choose|y: int| 0 <= y < x && #[trigger] es[y].0 == blocks.entries@[i].0 && vis@[y];
                    }
                }
                let ghost bl0 = blocks.entries@;
                let ghost nbg = nb;
                proof {
                    assert(phi_defs(nb.phi_nodes@) =~= phi_defs(sb0.phi_nodes@));
                    assert(block_defs_of(nb) == block_defs_of(sb0));
                    assert(outf[x as int] == Some(sb0));
                }
                blocks.push_last(key, nb);
                proof {
                    let idx0 = idx;
                    idx = idx.push(x as int);
                    assert forall|i: int| 0 <= i < idx.len() implies 0 <= #[trigger] idx[i] < x + 1 && outf[idx[i]] is Some
                        && block_defs_of(blocks.entries@[i].1) == block_defs_of(outf[idx[i]].unwrap()) by {
                        if i < idx0.len() {
                            assert(idx[i] == idx0[i]);
                            assert(blocks.entries@[i] == bl0[i]);
                        } else {
                            assert(blocks.entries@[i] == (key, nbg));
                        }
                    }
                    assert forall|i: int| 0 <= i < idx.len() implies (#[trigger] blocks.entries@[i]).0 == es[idx[i]].0
                        && blocks.entries@[i].1.instructions@ == outf[idx[i]].unwrap().instructions@
                        && blocks.entries@[i].1.terminator == outf[idx[i]].unwrap().terminator
                        && blocks.entries@[i].1.phi_nodes@.len() == phis@[idx[i]]@.len()
                        && forall|j: int| 0 <= j < blocks.entries@[i].1.phi_nodes@.len() ==> (#[trigger] blocks.entries@[i].1.phi_nodes@[j]).incoming@ == phis@[idx[i]]@[j].incoming@
                            && blocks.entries@[i].1.phi_nodes@[j].original_reg == phis@[idx[i]]@[j].original_reg by {
                        if i < idx0.len() {
                            assert(idx[i] == idx0[i]);
                            assert(blocks.entries@[i] == bl0[i]);
                        } else {
                            assert(blocks.entries@[i] == (key, nbg));
                            assert(idx[i] == x as int);
                        }
                    }
                    assert forall|i: int| 0 <= i < idx.len() implies (#[trigger] blocks.entries@[i]).1.phi_nodes@.len() == outf[idx[i]].unwrap().phi_nodes@.len()
                        && forall|j: int| 0 <= j < blocks.entries@[i].1.phi_nodes@.len() ==> (#[trigger] blocks.entries@[i].1.phi_nodes@[j]).dest == outf[idx[i]].unwrap().phi_nodes@[j].dest
                            && blocks.entries@[i].1.phi_nodes@[j].original_reg == outf[idx[i]].unwrap().phi_nodes@[j].original_reg by {
                        if i < idx0.len() {
                            assert(idx[i] == idx0[i]);
                            assert(blocks.entries@[i] == bl0[i]);
                        } else {
                            assert(blocks.entries@[i] == (key, nbg));
                            assert(idx[i] == x as int);
                            assert(outf[x as int].unwrap() == sb0);
                        }
                    }
                    assert forall|i: int, j: int| 0 <= i < j < idx.len() implies #[trigger] idx[i] < #[trigger] idx[j] by {
                        if j < idx0.len() {
                            assert(idx[i] == idx0[i] && idx[j] == idx0[j]);
                        } else {
                            assert(idx[i] == idx0[i]);
                        }
                    }
                    assert forall|i: int| 0 <= i < blocks.entries@.len() implies marked_before(es, vis@, x + 1, (#[trigger] blocks.entries@[i]).0) by {
                        if i < bl0.len() {
                            assert(blocks.entries@[i] == bl0[i]);
                            assert(marked_before(es, vis@, x as int, bl0[i].0));
                            let y = choose|y: int| 0 <= y < x && #[trigger] es[y].0 == bl0[i].0 && vis@[y];
                            assert(es[y].0 == blocks.entries@[i].0);
                        } else {
                            assert(blocks.entries@[i].0 == es[x as int].0);
                            assert(es[x as int].0 == blocks.entries@[i].0);
                        }
                    }
                    assert forall|y: int| 0 <= y < x + 1 && #[trigger] vis@[y] implies blocks.has(es[y].0) by {
                        if y < x {
                            let i = choose|i: int| 0 <= i < bl0.len() && (#[trigger] bl0[i]).0 == es[y].0;
                            assert(blocks.entries@[i] == bl0[i]);
                        } else {
                            assert(blocks.entries@[bl0.len() as int].0 == es[y].0);
                        }
                    }
                    assert forall|i: int| 0 <= i < blocks.entries@.len() implies ssa_block_ok(*cfg, (#[trigger] blocks.entries@[i]).0, blocks.entries@[i].1) by {
                        if i < bl0.len() {
                            assert(blocks.entries@[i] == bl0[i]);
                        }
                    }
                }
            },
            None => {
                assert(!vis@[x as int]);
                assert forall|i: int| 0 <= i < blocks.entries@.len() implies marked_before(es, vis@, x + 1, (#[trigger] blocks.entries@[i]).0) by {
                    assert(marked_before(es, vis@, x as int, blocks.entries@[i].0));
                    let y = choose|y: int| 0 <= y < x && #[trigger] es[y].0 == blocks.entries@[i].0 && vis@[y];
                    assert(es[y].0 == blocks.entries@[i].0);
                }
            },
        }
        proof {
            if x + 1 < n {
                assert(es[x as int].0 < es[x + 1].0);
            }
            assert forall|i: int| 0 <= i < idx.len() implies 0 <= #[trigger] idx[i] < x + 1 && outf[idx[i]] is Some
                && block_defs_of(blocks.entries@[i].1) == block_defs_of(outf[idx[i]].unwrap()) by {}
            assert forall|i: int| 0 <= i < blocks.entries@.len() implies (#[trigger] blocks.entries@[i]).0 < es[x + 1].0 || x + 1 == n by {
                if x + 1 < n {
                    assert(marked_before(es, vis@, x + 1, blocks.entries@[i].0));
                    let y = choose|y: int| 0 <= y < x + 1 && #[trigger] es[y].0 == blocks.entries@[i].0 && vis@[y];
                    assert(es[y].0 < es[x + 1].0);
                }
            }
        }
        x = x + 1;
    }
    (blocks, Ghost(idx))
}

impl SsaTransformer {
    /// Converts the graph to SSA form. Blocks not reachable from the entry
    /// block are dropped. Phi nodes are placed at the iterated dominance
    /// frontiers of each register's definitions; then the dominator tree is
    /// walked from the entry, children by increasing id, renaming every
    /// definition to a fresh version and every use to the version current
    /// at that point.
    #[verifier::spinoff_prover]
    #[verifier::rlimit(100)]
    pub fn transform(self) -> (out: SsaCFG)
        requires
            self.edges_ok(),
            reachable_edges_ok(self),
            self.cfg.blocks.entries@.len() + total_defs(self.cfg) <= u32::MAX,
        ensures
            out.entry_block == self.cfg.entry_block,
            out.original_pc_to_block_id@ == self.cfg.original_pc_to_block_id@,
            out.blocks.wf(),
            forall|id: BlockId| #[trigger] out.blocks.has(id) <==> reachable_id(self.cfg, self.succ_view(), id),
            forall|i: int| 0 <= i < out.blocks.entries@.len() ==> ssa_block_ok(self.cfg, (#[trigger] out.blocks.entries@[i]).0, out.blocks.entries@[i].1),
            single_assignment(out),
            phis_read_exits(self.cfg, out),
            exists|idom: Seq<usize>, df: Seq<Seq<usize>>, states: Seq<(VersionState, VersionState, VersionState)>|
                #[trigger] ssa_shape(self, out, idom, df, states),
            phis_at_joins(self, out),
    {
        let n = self.cfg.blocks.entries.len();
        let ghost sv = self.succ_view();
        let ghost es = self.cfg.blocks.entries@;
        let pcmap = copy_pc_map(&self.cfg.original_pc_to_block_id);
        let entry = match self.cfg.blocks.find(self.cfg.entry_block) {
            Some(e) => e,
            None => {
                let out = SsaCFG { entry_block: self.cfg.entry_block, blocks: BlockMap::new(), original_pc_to_block_id: pcmap };
                proof {
                    let idom0 = Seq::new(n as nat, |x: int| x as usize);
                    let df0 = Seq::new(n as nat, |x: int| Seq::<usize>::empty());
                    let vis0 = reach_marks(self.cfg, self.succ_view());
                    let e0 = self.cfg.blocks.pos(self.cfg.entry_block);
                    assert(idom_tree(idom0, vis0, e0, n as int));
                    assert forall|x: int, y: int| 0 <= x < n && 0 <= y < n implies
                        (df0[x].contains(y as usize) <==> #[trigger] frontier_of(reach_preds(self, vis0), vis0, idom0, e0, x, y)) by {
                        assert(!vis0[y]);
                    }
                    assert(phis_at_frontiers(self, out, idom0, df0));
                    assert(ssa_shape(self, out, idom0, df0, Seq::<(VersionState, VersionState, VersionState)>::empty()));
                }
                return out;
            },
        };
        let (vis, post) = reachable_post_order(&self.successors, entry);
        proof {
            lemma_distinct_len(post@, n as int);
        }
        let po = post_order_index(&post, n);
        proof {
            assert(order_facts(post@, po@, entry as int, n as int));
        }
        // predecessors that are reachable
        let rpreds = self.reach_preds_lists(&vis, entry, Ghost(post@));
        let ghost rv = view_lists(rpreds@);
        proof {
            assert forall|x: int| 0 <= x < n implies (#[trigger] rv[x]) == keep_marked(self.pred_view()[x], vis@) by {
                assert(rv[x] == rpreds@[x]@);
            }
            assert forall|bb: int, i: int| 0 <= bb < n && 0 <= i < rv[bb].len() implies #[trigger] rv[bb][i] < n && listed(post@, 0, rv[bb][i] as int) by {
                lemma_keep_marked(self.pred_view()[bb], vis@);
                lemma_preds_upto(sv, bb as usize, n as int);
                let x = rv[bb][i];
                assert(self.pred_view()[bb].contains(x));
                let q = choose|q: int| 0 <= q < self.pred_view()[bb].len() && self.pred_view()[bb][q] == x;
                assert(preds_upto(sv, bb as usize, n as int)[q] < n);
                assert(vis@[x as int]);
            }
            assert forall|u: usize, bb: usize| u < n && bb < n && listed(post@, 0, u as int) && #[trigger] sv[u as int].contains(bb) implies #[trigger] rv[bb as int].contains(u) by {
                lemma_preds_upto(sv, bb, n as int);
                assert(sv[u as int].contains(bb));
                assert(preds_upto(sv, bb, n as int).contains((u as int) as usize));
                lemma_keep_marked(self.pred_view()[bb as int], vis@);
                assert(vis@[u as int]);
            }
            assert(preds_cover(sv, post@, rv, n as int));
        }
        let idom = compute_dominators(&rpreds, &post, &po, entry, Ghost(sv));
        proof {
            assert forall|x: int, i: int| 0 <= x < rpreds@.len() && 0 <= i < rpreds@[x]@.len() implies #[trigger] rpreds@[x]@[i] < rpreds@.len() && listed(post@, 0, rpreds@[x]@[i] as int) by {
                assert(rpreds@[x]@ == rv[x]);
            }
        }
        let df = compute_dominance_frontiers(&rpreds, &vis, &idom, &po, entry, Ghost(post@));
        // registers defined in each reachable block, and all of them
        let (bdefs, all_regs) = reach_def_lists(&self.cfg, &vis);
        let mut phis = place_phis(&df, &bdefs, &all_regs, Ghost(post@));
        let ghost phis0 = phis@;
        let ghost origs = Seq::new(n as nat, |x: int| phis@[x]@.map_values(|p: SsaPhiNode| p.original_reg.0));
        proof {
            assert forall|bb: int, i: int, j: int| 0 <= bb < n && 0 <= i < j < origs[bb].len() implies (#[trigger] origs[bb][i]) < (#[trigger] origs[bb][j]) by {
                assert(phis_sorted(phis@[bb]@));
            }
            assert(dom_complete(post@, po@, idom@, entry as int, n as int));
            assert(rename_ctx(self, post@, po@, idom@, entry as int, origs));
            assert forall|bb: int, j: int| 0 <= bb < phis@.len() && 0 <= j < phis@[bb]@.len() implies (#[trigger] phis@[bb]@[j]).original_reg.0 == origs[bb][j] by {}
            assert forall|bb: int, j: int, q: int|
                0 <= bb < phis@.len() && 0 <= j < phis@[bb]@.len() && 0 <= q < phis@[bb]@[j].incoming@.len() implies (#[trigger] phis@[bb]@[j].incoming@[q]).1.reg
                    == origs[bb][j] by {
                assert(phi_placed(phis@[bb]@[j]));
            }
            assert(phis_ok(phis@, origs));
        }
        let mut out: Vec<Option<SsaBasicBlock>> = Vec::new();
        let mut q: usize = 0;
        while q < n
            invariant
                q <= n,
                out@.len() == q,
                forall|x: int| 0 <= x < q ==> (#[trigger] out@[x]) is None,
            decreases n - q,
        {
            out.push(None);
            q = q + 1;
        }
        let mut vt = VersionTable::new();
        proof {
            lemma_num_some_bound(out@);
            lemma_filled_le(out@, es);
            assert(budget_ok(vt.vstate(), out@, es));
            assert(out_ok(out@, self.cfg, post@, origs));
            assert forall|y: int, j: int, q: int| 0 <= y < phis@.len() && 0 <= j < phis@[y]@.len() && 0 <= q < phis@[y]@[j].incoming@.len()
                implies entry_from_exit(es, out@, #[trigger] phis@[y]@[j].incoming@[q], phis@[y]@[j].original_reg.0) by {
                assert(phi_placed(phis@[y]@[j]));
            }
        }
        let mut states: Ghost<Seq<(VersionState, VersionState, VersionState)>> = Ghost(Seq::new(n as nat, |x: int| (no_versions(), no_versions(), no_versions())));
        proof {
            assert(vt.vstate() =~= no_versions());
        }
        rename_block(&self, entry, &idom, &mut phis, &mut out, &mut vt, Ghost(post@), Ghost(po@), Ghost(entry as int), Ghost(origs), Ghost(no_versions()), &mut states);
        let ghost outf = out@;
        proof {
            assert forall|x: int| 0 <= x < n implies ((#[trigger] outf[x]) is Some <==> vis@[x]) by {
                if vis@[x] {
                    lemma_below_entry(post@, po@, idom@, entry as int, n as int, x);
                }
            }
        }
        // assemble the blocks, each phi node with all its incoming values
        let (blocks, Ghost(idx)) = assemble_blocks(&self.cfg, out, &phis, &vis, Ghost(post@), Ghost(origs));
        proof {
            self.cfg.blocks.lemma_pos(entry as int);
            assert forall|id: BlockId| #[trigger] blocks.has(id) <==> reachable_id(self.cfg, sv, id) by {
                if blocks.has(id) {
                    let i = choose|i: int| 0 <= i < blocks.entries@.len() && (#[trigger] blocks.entries@[i]).0 == id;
                    assert(marked_before(es, vis@, n as int, blocks.entries@[i].0));
                    let y = choose|y: int| 0 <= y < n && #[trigger] es[y].0 == blocks.entries@[i].0 && vis@[y];
                    self.cfg.blocks.lemma_pos(y);
                    assert(self.cfg.blocks.has(id));
                }
                if reachable_id(self.cfg, sv, id) {
                    let y = self.cfg.blocks.pos(id);
                    assert(0 <= y < n && es[y].0 == id);
                    assert(vis@[y]);
                }
            }
            let e = blocks.entries@;
            assert forall|a: int, i: int, c: int, j: int|
                0 <= a < e.len() && 0 <= c < e.len() && 0 <= i < block_defs_of(e[a].1).len() && 0 <= j < block_defs_of(e[c].1).len()
                && (a != c || i != j) implies #[trigger] block_defs_of(e[a].1)[i] != #[trigger] block_defs_of(e[c].1)[j] by {
                assert(block_defs_of(e[a].1) == block_defs_of(outf[idx[a]].unwrap()));
                assert(block_defs_of(e[c].1) == block_defs_of(outf[idx[c]].unwrap()));
                if a < c {
                    assert(idx[a] < idx[c]);
                } else if c < a {
                    assert(idx[c] < idx[a]);
                }
            }
        }
        let out = SsaCFG { entry_block: self.cfg.entry_block, blocks, original_pc_to_block_id: pcmap };
        proof {
            lemma_phis_read_exits(self.cfg, vis@, outf, phis@, idx, out);
            let vm = reach_marks(self.cfg, sv);
            self.cfg.blocks.lemma_pos(entry as int);
            assert(vis@ =~= vm);
            assert forall|x: int| 0 <= x < n && #[trigger] vis@[x] implies idom@[x] < n && vis@[idom@[x] as int] && below(idom@, x, entry as int) by {
                lemma_below_entry(post@, po@, idom@, entry as int, n as int, x);
            }
            assert(idom_tree(idom@, vis@, entry as int, n as int));
            assert(view_lists(rpreds@) =~= reach_preds(self, vis@)) by {
                assert forall|x: int| 0 <= x < n implies #[trigger] view_lists(rpreds@)[x] == reach_preds(self, vis@)[x] by {
                    assert(rv[x] == keep_marked(self.pred_view()[x], vis@));
                }
            }
            assert(reg_lists(bdefs@) =~= reach_defs(self.cfg, vis@)) by {
                assert forall|x: int| 0 <= x < n implies #[trigger] reg_lists(bdefs@)[x] == reach_defs(self.cfg, vis@)[x] by {
                    assert(bdefs@[x]@ == if vis@[x] { block_dests(es[x].1) } else { Seq::<u32>::empty() });
                }
            }
            lemma_out_phis_placed(self.cfg, phis@, phis0, origs, idx, out, view_lists(df@), reg_lists(bdefs@));
            assert(phis_at_frontiers(self, out, idom@, view_lists(df@)));
            assert forall|i: int| 0 <= i < out.blocks.entries@.len() implies self.cfg.blocks.has((#[trigger] out.blocks.entries@[i]).0) by {
                assert(out.blocks.has(out.blocks.entries@[i].0));
            }
            lemma_phis_at_joins(self, out, idom@, view_lists(df@));
            lemma_flow_transfer(self.cfg, outf, states@, idx, out, idom@, entry as int);
            assert(ssa_shape(self, out, idom@, view_lists(df@), states@));
        }
        out
    }
}

} // verus!
