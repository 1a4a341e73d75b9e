//! The optimisation pipeline of one instruction list: a control-flow graph,
//! its SSA form, the passes, back out of SSA form and flat again. Each stage
//! is checked for what the next one needs; where a check fails there is no
//! result.

use vstd::prelude::*;
use std::collections::HashSet;
use crate::blockmap::BlockId;
use crate::instruction::Instruction;
use crate::cfg::{CFG, BasicBlock, Terminator, pc_sums_fit, leaders, block_built, block_of};
use crate::ssa::{SsaCFG, SsaReg, SsaPhiNode, SsaBasicBlock, SsaTerminator};
use crate::ssa::instruction::{SsaInstruction, spec_ssa_defined_reg, spec_ssa_used_regs};
use crate::optimize::dead_code::{term_src_regs, for_each_ssa_src_reg, for_each_ssa_term_src_reg, get_ssa_dest_reg};
use crate::ssa::rename::defs_of;
use crate::ssa::unique::single_assignment;
use crate::ssa::transformer::{
    SsaTransformer, cfg_ok, side_pcs_ok, side_targets, term_targets, succ_ids, succ_ids_upto, add_all_new,
    add_new, opt_seq, total_defs, defs_upto, block_defs, defs_sum, term_defs, succ_pos, reachable_id,
    ssa_block_ok,
};
use crate::optimize::flatten::{destruct_ssa, flatten_cfg, check_flattenable, no_placeholders, flattenable,
    flat_offset, block_emitted, block_destructed};
use crate::optimize::{PassManager, OptimizationPass, rounds_ran};

verus! {

broadcast use vstd::std_specs::hash::group_hash_axioms;

/// `cfg` is the graph that `CFG::from_flat_instructions` builds from `instrs`.
pub open spec fn built_from(instrs: Seq<Instruction>, cfg: CFG) -> bool {
    &&& cfg.entry_block == 0
    &&& cfg.blocks.wf()
    &&& instrs.len() == 0 ==> cfg.blocks.entries@.len() == 0 && cfg.original_pc_to_block_id@.len() == 0
    &&& instrs.len() > 0 ==> {
        &&& cfg.blocks.entries@.len() == leaders(instrs).len()
        &&& forall|b: int|
            0 <= b < leaders(instrs).len() ==> (#[trigger] cfg.blocks.entries@[b]).0 == b
                && block_built(instrs, b, cfg.blocks.entries@[b].1)
        &&& cfg.original_pc_to_block_id@.len() == instrs.len() + 1
        &&& forall|p: int|
            0 <= p <= instrs.len() ==> #[trigger] cfg.original_pc_to_block_id@[p]
                == block_of(instrs, if p < instrs.len() { p } else { instrs.len() - 1 })
    }
}

/// The successor positions of every block of `cfg`.
pub open spec fn cfg_succs(cfg: CFG) -> Seq<Seq<usize>> {
    Seq::new(cfg.blocks.entries@.len(), |i: int| succ_pos(cfg, i))
}

/// `s` is an SSA form of `cfg`: the blocks reachable from the entry, each
/// renamed as `ssa_block_ok` says, no version defined twice.
pub open spec fn ssa_form_of(cfg: CFG, s: SsaCFG) -> bool {
    &&& s.entry_block == cfg.entry_block
    &&& s.original_pc_to_block_id@ == cfg.original_pc_to_block_id@
    &&& s.blocks.wf()
    &&& forall|id: BlockId| #[trigger] s.blocks.has(id) <==> reachable_id(cfg, cfg_succs(cfg), id)
    &&& forall|i: int| 0 <= i < s.blocks.entries@.len() ==> ssa_block_ok(cfg, (#[trigger] s.blocks.entries@[i]).0, s.blocks.entries@[i].1)
    &&& single_assignment(s)
}

/// `c` is `s` out of SSA form, as `destruct_ssa` builds it.
pub open spec fn destructed(s: SsaCFG, c: CFG) -> bool {
    &&& c.entry_block == s.entry_block
    &&& c.original_pc_to_block_id@ == s.original_pc_to_block_id@
    &&& c.blocks.wf()
    &&& c.blocks.entries@.len() == s.blocks.entries@.len()
    &&& forall|i: int| 0 <= i < s.blocks.entries@.len() ==> (#[trigger] c.blocks.entries@[i]).0 == s.blocks.entries@[i].0
        && block_destructed(s.blocks.entries@, s.blocks.entries@[i].0, s.blocks.entries@[i].1, c.blocks.entries@[i].1)
}

/// `out` is the flat layout of `c`, as `flatten_cfg` lays it out.
pub open spec fn laid_out(c: CFG, out: Seq<Instruction>) -> bool {
    &&& flattenable(c)
    &&& out.len() == flat_offset(c.blocks.entries@, c.blocks.entries@.len() as int)
    &&& forall|i: int| 0 <= i < c.blocks.entries@.len() ==> #[trigger] block_emitted(c, out, i)
}

/// Whether the instruction list has fewer than `u32::MAX` instructions and
/// no relativistic block whose end overflows.
fn fits_flat(instrs: &Vec<Instruction>) -> (r: bool)
    ensures
        r == (instrs@.len() < u32::MAX && pc_sums_fit(instrs@)),
{
    if instrs.len() >= 4294967295 {
        return false;
    }
    let mut i: usize = 0;
    while i < instrs.len()
        invariant
            i <= instrs@.len(),
            forall|q: int| 0 <= q < i ==> match #[trigger] instrs@[q] {
                Instruction::RelativisticBlock { block_pc, block_len, .. } => block_pc + block_len <= usize::MAX,
                _ => true,
            },
        decreases instrs@.len() - i,
    {
        match &instrs[i] {
            Instruction::RelativisticBlock { block_pc, block_len, .. } => {
                if block_pc.checked_add(*block_len).is_none() {
                    return false;
                }
            },
            _ => {},
        }
        i = i + 1;
    }
    true
}

/// Every element of `add_all_new(s, xs)` is in `s` or in `xs`.
proof fn lemma_add_all_new(s: Seq<BlockId>, xs: Seq<BlockId>, x: BlockId)
    requires
        add_all_new(s, xs).contains(x),
    ensures
        s.contains(x) || xs.contains(x),
    decreases xs.len(),
{
    if xs.len() > 0 {
        let a = add_all_new(s, xs.drop_last());
        if a.contains(x) {
            lemma_add_all_new(s, xs.drop_last(), x);
            if xs.drop_last().contains(x) {
                let k = choose|k: int| 0 <= k < xs.drop_last().len() && xs.drop_last()[k] == x;
                assert(xs[k] == x);
            }
        } else {
            let k = choose|k: int| 0 <= k < add_new(a, xs.last()).len() && add_new(a, xs.last())[k] == x;
            if !a.contains(xs.last()) {
                assert(k == a.len());
            } else {
                assert(a[k] == x);
            }
            assert(xs[xs.len() - 1] == x);
        }
    }
}

/// A successor of a block is a target of its terminator or a side target
/// of one of its instructions.
proof fn lemma_succ_from(b: BasicBlock, pcmap: Seq<BlockId>, k: int, x: BlockId)
    requires
        0 <= k <= b.instructions@.len(),
        succ_ids_upto(b, pcmap, k).contains(x),
    ensures
        term_targets(b.terminator).contains(x)
            || exists|j: int| 0 <= j < k && (#[trigger] side_targets(b.instructions@[j], pcmap)).contains(x),
    decreases k,
{
    if k > 0 {
        lemma_add_all_new(succ_ids_upto(b, pcmap, k - 1), side_targets(b.instructions@[k - 1], pcmap), x);
        if succ_ids_upto(b, pcmap, k - 1).contains(x) {
            lemma_succ_from(b, pcmap, k - 1, x);
        }
    }
}

fn block_known(cfg: &CFG, id: BlockId) -> (r: bool)
    requires
        cfg.blocks.wf(),
    ensures
        r == cfg.blocks.has(id),
{
    cfg.blocks.find(id).is_some()
}

/// Every block of `s` is a block of the graph.
pub open spec fn all_known(cfg: CFG, s: Seq<BlockId>) -> bool {
    forall|k: int| 0 <= k < s.len() ==> cfg.blocks.has(#[trigger] s[k])
}

proof fn lemma_all_known_concat(cfg: CFG, a: Seq<BlockId>, b: Seq<BlockId>)
    ensures
        all_known(cfg, a + b) == (all_known(cfg, a) && all_known(cfg, b)),
{
    if all_known(cfg, a + b) {
        assert forall|k: int| 0 <= k < a.len() implies cfg.blocks.has(#[trigger] a[k]) by {
            assert((a + b)[k] == a[k]);
        }
        assert forall|k: int| 0 <= k < b.len() implies cfg.blocks.has(#[trigger] b[k]) by {
            assert((a + b)[a.len() + k] == b[k]);
        }
    }
    if all_known(cfg, a) && all_known(cfg, b) {
        assert forall|k: int| 0 <= k < (a + b).len() implies cfg.blocks.has(#[trigger] (a + b)[k]) by {
            if k < a.len() {
                assert((a + b)[k] == a[k]);
            } else {
                assert((a + b)[k] == b[k - a.len()]);
            }
        }
    }
}

/// What a set of blocks holds stays in it when more blocks are added.
proof fn lemma_add_all_keeps(s: Seq<BlockId>, xs: Seq<BlockId>, x: BlockId)
    ensures
        s.contains(x) ==> add_all_new(s, xs).contains(x),
        xs.contains(x) ==> add_all_new(s, xs).contains(x),
    decreases xs.len(),
{
    if xs.len() > 0 {
        let a = add_all_new(s, xs.drop_last());
        lemma_add_all_keeps(s, xs.drop_last(), x);
        let l = xs.last();
        if a.contains(x) {
            if !a.contains(l) {
                let k = choose|k: int| 0 <= k < a.len() && a[k] == x;
                assert(a.push(l)[k] == x);
            }
        }
        if xs.contains(x) {
            let k = choose|k: int| 0 <= k < xs.len() && xs[k] == x;
            if k < xs.len() - 1 {
                assert(xs.drop_last()[k] == x);
            } else if !a.contains(l) {
                assert(a.push(l)[a.len() as int] == x);
            }
        }
    }
}

/// A successor listed after `k` instructions stays listed after `m`.
proof fn lemma_succ_grows(b: BasicBlock, pcmap: Seq<BlockId>, k: int, m: int, x: BlockId)
    requires
        0 <= k <= m <= b.instructions@.len(),
        succ_ids_upto(b, pcmap, k).contains(x),
    ensures
        succ_ids_upto(b, pcmap, m).contains(x),
    decreases m - k,
{
    if k < m {
        lemma_add_all_keeps(succ_ids_upto(b, pcmap, k), side_targets(b.instructions@[k], pcmap), x);
        lemma_succ_grows(b, pcmap, k + 1, m, x);
    }
}

fn opt_known(cfg: &CFG, o: Option<BlockId>) -> (r: bool)
    requires
        cfg.blocks.wf(),
    ensures
        r == all_known(*cfg, opt_seq(o)),
{
    match o {
        Some(b) => {
            let r = block_known(cfg, b);
            assert(opt_seq(o)[0] == b);
            r
        },
        None => true,
    }
}

/// Whether every target of the terminator is a block of the graph.
fn term_targets_known(cfg: &CFG, t: &Terminator) -> (r: bool)
    requires
        cfg.blocks.wf(),
    ensures
        r == all_known(*cfg, term_targets(*t)),
{
    match t {
        Terminator::Jump { target } => {
            assert(term_targets(*t)[0] == *target);
            block_known(cfg, *target)
        },
        Terminator::Branch { then_block, else_block, .. } => {
            assert(term_targets(*t)[0] == *then_block);
            assert(term_targets(*t)[1] == *else_block);
            block_known(cfg, *then_block) && block_known(cfg, *else_block)
        },
        Terminator::MatchEntropy { valid_block, decayed_block, pending_block, consumed_block, .. } => {
            let ok = opt_known(cfg, *valid_block) && opt_known(cfg, *decayed_block) && opt_known(cfg, *pending_block)
                && opt_known(cfg, *consumed_block);
            proof {
                let a = opt_seq(*valid_block);
                let b = opt_seq(*decayed_block);
                let c = opt_seq(*pending_block);
                let d = opt_seq(*consumed_block);
                lemma_all_known_concat(*cfg, a, b);
                lemma_all_known_concat(*cfg, a + b, c);
                lemma_all_known_concat(*cfg, a + b + c, d);
            }
            ok
        },
        Terminator::Select { cases, timeout_block, .. } => {
            let mut ok = opt_known(cfg, *timeout_block);
            let mut c: usize = 0;
            while c < cases.len()
                invariant
                    cfg.blocks.wf(),
                    c <= cases@.len(),
                    ok == (all_known(*cfg, opt_seq(*timeout_block)) && forall|q: int| 0 <= q < c ==> cfg.blocks.has(#[trigger] cases@[q].target_block)),
                decreases cases@.len() - c,
            {
                if !block_known(cfg, cases[c].target_block) {
                    ok = false;
                }
                c = c + 1;
            }
            proof {
                let a = cases@.map_values(|x: crate::cfg::SelectCase| x.target_block);
                let b = opt_seq(*timeout_block);
                lemma_all_known_concat(*cfg, a, b);
                if all_known(*cfg, a) {
                    assert forall|q: int| 0 <= q < cases@.len() implies cfg.blocks.has(#[trigger] cases@[q].target_block) by {
                        assert(a[q] == cases@[q].target_block);
                    }
                }
                if ok {
                    assert forall|q: int| 0 <= q < a.len() implies cfg.blocks.has(#[trigger] a[q]) by {
                        assert(a[q] == cases@[q].target_block);
                    }
                }
            }
            ok
        },
        _ => true,
    }
}

/// Whether the instruction's side targets lie in the instruction map and
/// lead to blocks of the graph.
fn side_known(cfg: &CFG, i: &Instruction) -> (r: bool)
    requires
        cfg.blocks.wf(),
    ensures
        r == (side_pcs_ok(*i, cfg.original_pc_to_block_id@.len() as int) && all_known(*cfg, side_targets(*i, cfg.original_pc_to_block_id@))),
{
    let pcmap = &cfg.original_pc_to_block_id;
    let len = pcmap.len();
    match i {
        Instruction::RelativisticBlock { block_pc, block_len, .. } => {
            match block_pc.checked_add(*block_len) {
                Some(end) => {
                    if end < len {
                        let ok = block_known(cfg, pcmap[*block_pc]) && block_known(cfg, pcmap[end]);
                        proof {
                            let s = side_targets(*i, pcmap@);
                            assert(s[0] == pcmap@[*block_pc as int]);
                            assert(s[1] == pcmap@[end as int]);
                        }
                        ok
                    } else {
                        false
                    }
                },
                None => false,
            }
        },
        Instruction::Watchdog { recovery_jump: Some(t), .. } => {
            if *t < len {
                assert(side_targets(*i, pcmap@)[0] == pcmap@[*t as int]);
                block_known(cfg, pcmap[*t])
            } else {
                false
            }
        },
        Instruction::Speculate { fallback_target, .. } => {
            if *fallback_target < len {
                assert(side_targets(*i, pcmap@)[0] == pcmap@[*fallback_target as int]);
                block_known(cfg, pcmap[*fallback_target])
            } else {
                false
            }
        },
        Instruction::EndSpeculate { fallback_target, .. } => {
            if *fallback_target < len {
                assert(side_targets(*i, pcmap@)[0] == pcmap@[*fallback_target as int]);
                block_known(cfg, pcmap[*fallback_target])
            } else {
                false
            }
        },
        _ => true,
    }
}

/// Whether the graph is one the SSA conversion accepts.
fn check_cfg(cfg: &CFG) -> (r: bool)
    requires
        cfg.blocks.wf(),
    ensures
        r == cfg_ok(*cfg),
{
    let ghost es = cfg.blocks.entries@;
    let ghost pcmap = cfg.original_pc_to_block_id@;
    let n = cfg.blocks.entries.len();
    if n == usize::MAX {
        return false;
    }
    let mut i: usize = 0;
    while i < n
        invariant
            cfg.blocks.wf(),
            es == cfg.blocks.entries@,
            pcmap == cfg.original_pc_to_block_id@,
            n == es.len(),
            n < usize::MAX,
            i <= n,
            forall|q: int, j: int| 0 <= q < i && 0 <= j < es[q].1.instructions@.len() ==> side_pcs_ok(#[trigger] es[q].1.instructions@[j], pcmap.len() as int),
            forall|q: int, k: int| 0 <= q < i && 0 <= k < succ_ids(es[q].1, pcmap).len() ==> cfg.blocks.has(#[trigger] succ_ids(es[q].1, pcmap)[k]),
        decreases n - i,
    {
        let b = &cfg.blocks.entries[i].1;
        if !term_targets_known(cfg, &b.terminator) {
            proof {
                let tt = term_targets(b.terminator);
                let y = choose|y: int| 0 <= y < tt.len() && !cfg.blocks.has(#[trigger] tt[y]);
                assert(succ_ids_upto(*b, pcmap, 0) == tt);
                assert(tt.contains(tt[y]));
                lemma_succ_grows(*b, pcmap, 0, b.instructions@.len() as int, tt[y]);
                let ss = succ_ids(es[i as int].1, pcmap);
                let x = choose|x: int| 0 <= x < ss.len() && ss[x] == tt[y];
                assert(!cfg.blocks.has(ss[x]));
            }
            return false;
        }
        let mut k: usize = 0;
        while k < b.instructions.len()
            invariant
                cfg.blocks.wf(),
                es == cfg.blocks.entries@,
                pcmap == cfg.original_pc_to_block_id@,
                i < n,
                n == es.len(),
                *b == es[i as int].1,
                k <= b.instructions@.len(),
                forall|j: int| 0 <= j < k ==> side_pcs_ok(#[trigger] b.instructions@[j], pcmap.len() as int),
                forall|j: int, x: int| 0 <= j < k && 0 <= x < side_targets(b.instructions@[j], pcmap).len()
                    ==> cfg.blocks.has(#[trigger] side_targets(b.instructions@[j], pcmap)[x]),
            decreases b.instructions@.len() - k,
        {
            if !side_known(cfg, &b.instructions[k]) {
                proof {
                    let ins = b.instructions@[k as int];
                    assert(es[i as int].1.instructions@[k as int] == ins);
                    if side_pcs_ok(ins, pcmap.len() as int) {
                        let st = side_targets(ins, pcmap);
                        let y = choose|y: int| 0 <= y < st.len() && !cfg.blocks.has(#[trigger] st[y]);
                        assert(st.contains(st[y]));
                        lemma_add_all_keeps(succ_ids_upto(*b, pcmap, k as int), st, st[y]);
                        assert(succ_ids_upto(*b, pcmap, k + 1).contains(st[y]));
                        lemma_succ_grows(*b, pcmap, k + 1, b.instructions@.len() as int, st[y]);
                        let ss = succ_ids(es[i as int].1, pcmap);
                        let x = choose|x: int| 0 <= x < ss.len() && ss[x] == st[y];
                        assert(!cfg.blocks.has(ss[x]));
                    }
                }
                return false;
            }
            k = k + 1;
        }
        proof {
            let ss = succ_ids(*b, pcmap);
            assert forall|x: int| 0 <= x < ss.len() implies cfg.blocks.has(#[trigger] ss[x]) by {
                assert(ss.contains(ss[x]));
                lemma_succ_from(*b, pcmap, b.instructions@.len() as int, ss[x]);
                if term_targets(b.terminator).contains(ss[x]) {
                    let y = choose|y: int| 0 <= y < term_targets(b.terminator).len() && term_targets(b.terminator)[y] == ss[x];
                    assert(cfg.blocks.has(term_targets(b.terminator)[y]));
                } else {
                    let j = choose|j: int| 0 <= j < b.instructions@.len() && (#[trigger] side_targets(b.instructions@[j], pcmap)).contains(ss[x]);
                    let y = choose|y: int| 0 <= y < side_targets(b.instructions@[j], pcmap).len() && side_targets(b.instructions@[j], pcmap)[y] == ss[x];
                    assert(cfg.blocks.has(side_targets(b.instructions@[j], pcmap)[y]));
                }
            }
        }
        i = i + 1;
    }
    true
}


/// A bound on the versions an instruction hands out.
pub open spec fn defs_cap(i: Instruction) -> int {
    match i {
        Instruction::Select { cases, .. } => cases@.len() as int,
        _ => 2,
    }
}

pub open spec fn caps_sum(instrs: Seq<Instruction>) -> int
    decreases instrs.len(),
{
    if instrs.len() == 0 {
        0
    } else {
        caps_sum(instrs.drop_last()) + defs_cap(instrs.last())
    }
}

proof fn lemma_caps(instrs: Seq<Instruction>)
    ensures
        defs_sum(instrs) <= caps_sum(instrs),
    decreases instrs.len(),
{
    if instrs.len() > 0 {
        lemma_caps(instrs.drop_last());
        assert(defs_of(instrs.last()) <= defs_cap(instrs.last()));
    }
}

proof fn lemma_caps_prefix(instrs: Seq<Instruction>, k: int)
    requires
        0 <= k < instrs.len(),
    ensures
        caps_sum(instrs.take(k + 1)) == caps_sum(instrs.take(k)) + defs_cap(instrs[k]),
{
    assert(instrs.take(k + 1).drop_last() =~= instrs.take(k));
}

/// The cap on the versions that renaming a block hands out, phi nodes aside.
pub open spec fn block_cap(b: BasicBlock) -> int {
    caps_sum(b.instructions@) + term_defs(b.terminator)
}

pub open spec fn caps_upto(es: Seq<(BlockId, BasicBlock)>, k: int) -> int
    decreases k,
{
    if k <= 0 {
        0
    } else {
        caps_upto(es, k - 1) + block_cap(es[k - 1].1)
    }
}

/// The cap on the versions that renaming the whole graph hands out.
pub open spec fn caps_total(cfg: CFG) -> int {
    caps_upto(cfg.blocks.entries@, cfg.blocks.entries@.len() as int)
}

proof fn lemma_caps_nonneg(s: Seq<Instruction>)
    ensures
        caps_sum(s) >= 0,
    decreases s.len(),
{
    if s.len() > 0 {
        lemma_caps_nonneg(s.drop_last());
    }
}

proof fn lemma_caps_take(s: Seq<Instruction>, j: int)
    requires
        0 <= j <= s.len(),
    ensures
        caps_sum(s.take(j)) <= caps_sum(s),
    decreases s.len() - j,
{
    if j < s.len() {
        lemma_caps_take(s, j + 1);
        lemma_caps_prefix(s, j);
    } else {
        assert(s.take(j) =~= s);
    }
}

proof fn lemma_caps_upto_mono(es: Seq<(BlockId, BasicBlock)>, i: int, j: int)
    requires
        0 <= i <= j <= es.len(),
    ensures
        caps_upto(es, i) <= caps_upto(es, j),
    decreases j - i,
{
    if i < j {
        lemma_caps_upto_mono(es, i, j - 1);
        lemma_caps_nonneg(es[j - 1].1.instructions@);
    }
}

/// A bound on the versions that renaming the graph hands out, phi nodes
/// aside (`caps_total`), when it fits in a `u64`.
fn defs_bound(cfg: &CFG) -> (r: Option<u64>)
    ensures
        match r {
            Some(b) => b == caps_total(*cfg) && total_defs(*cfg) <= b,
            None => caps_total(*cfg) > u64::MAX,
        },
{
    let ghost es = cfg.blocks.entries@;
    let n = cfg.blocks.entries.len();
    let mut total: u64 = 0;
    let mut i: usize = 0;
    while i < n
        invariant
            es == cfg.blocks.entries@,
            n == es.len(),
            i <= n,
            defs_upto(es, i as int) <= total,
            total == caps_upto(es, i as int),
        decreases n - i,
    {
        let b = &cfg.blocks.entries[i].1;
        proof {
            lemma_caps_upto_mono(es, i + 1, n as int);
            lemma_caps_nonneg(b.instructions@);
        }
        let mut sum: u64 = 0;
        let mut k: usize = 0;
        while k < b.instructions.len()
            invariant
                k <= b.instructions@.len(),
                sum == caps_sum(b.instructions@.take(k as int)),
                es == cfg.blocks.entries@,
                n == es.len(),
                i < n,
                *b == es[i as int].1,
                total == caps_upto(es, i as int),
                caps_upto(es, i + 1) <= caps_upto(es, n as int),
            decreases b.instructions@.len() - k,
        {
            let c: u64 = match &b.instructions[k] {
                Instruction::Select { cases, .. } => cases.len() as u64,
                _ => 2,
            };
            proof {
                lemma_caps_prefix(b.instructions@, k as int);
            }
            match sum.checked_add(c) {
                Some(x) => {
                    sum = x;
                },
                None => {
                    proof {
                        lemma_caps_take(b.instructions@, k + 1);
                        assert(caps_sum(b.instructions@) > u64::MAX);
                        assert(block_cap(es[i as int].1) >= caps_sum(b.instructions@));
                        assert(caps_upto(es, i + 1) == caps_upto(es, i as int) + block_cap(es[i as int].1));
                    }
                    return None;
                },
            }
            k = k + 1;
        }
        let tc: u64 = match &b.terminator {
            Terminator::Select { cases, .. } => cases.len() as u64,
            _ => 0,
        };
        proof {
            assert(b.instructions@.take(b.instructions@.len() as int) =~= b.instructions@);
            lemma_caps(b.instructions@);
        }
        match total.checked_add(sum) {
            Some(x) => match x.checked_add(tc) {
                Some(y) => {
                    total = y;
                },
                None => {
                    return None;
                },
            },
            None => {
                return None;
            },
        }
        i = i + 1;
    }
    Some(total)
}

/// The graph passes the checks made before its conversion to SSA form:
/// every index and block it refers to exists, and the version counters
/// cannot overflow.
pub open spec fn ssa_accepts(cfg: CFG) -> bool {
    &&& cfg_ok(cfg)
    &&& cfg.blocks.entries@.len() + caps_total(cfg) <= 4294967295
}

/// The SSA form of an instruction list, when every stage's checks pass: the
/// list is small enough and its relativistic blocks end in range, and its
/// graph is one that `ssa_accepts`.
pub fn ssa_of_instructions(instrs: &Vec<Instruction>) -> (r: Option<SsaCFG>)
    ensures
        match r {
            Some(s) => exists|cfg: CFG| #[trigger] built_from(instrs@, cfg) && ssa_accepts(cfg) && ssa_form_of(cfg, s),
            None => !(instrs@.len() < u32::MAX && pc_sums_fit(instrs@))
                || exists|cfg: CFG| #[trigger] built_from(instrs@, cfg) && !ssa_accepts(cfg),
        },
{
    if !fits_flat(instrs) {
        return None;
    }
    let cfg = CFG::from_flat_instructions(instrs.as_slice());
    let ghost c0 = cfg;
    assert(built_from(instrs@, c0));
    if !check_cfg(&cfg) {
        assert(!ssa_accepts(c0));
        return None;
    }
    let bound = match defs_bound(&cfg) {
        Some(b) => b,
        None => {
            assert(!ssa_accepts(c0));
            return None;
        },
    };
    let n = cfg.blocks.entries.len() as u64;
    if bound > 4294967295 || n > 4294967295 - bound {
        assert(!ssa_accepts(c0));
        return None;
    }
    let t = SsaTransformer::new(cfg);
    let s = t.transform();
    proof {
        assert(t.succ_view() =~= cfg_succs(c0));
        assert(ssa_form_of(c0, s));
        assert(ssa_accepts(c0));
    }
    Some(s)
}

/// Whether no instruction of the graph is a placeholder that cannot be
/// lowered.
fn placeholder_free(s: &SsaCFG) -> (r: bool)
    ensures
        r == no_placeholders(*s),
{
    let n = s.blocks.entries.len();
    let mut i: usize = 0;
    while i < n
        invariant
            n == s.blocks.entries@.len(),
            i <= n,
            forall|q: int, k: int| 0 <= q < i && 0 <= k < s.blocks.entries@[q].1.instructions@.len()
                ==> !(#[trigger] s.blocks.entries@[q].1.instructions@[k] is Other),
        decreases n - i,
    {
        let b = &s.blocks.entries[i].1;
        let mut k: usize = 0;
        while k < b.instructions.len()
            invariant
                i < n,
                n == s.blocks.entries@.len(),
                *b == s.blocks.entries@[i as int].1,
                k <= b.instructions@.len(),
                forall|q: int| 0 <= q < k ==> !(#[trigger] b.instructions@[q] is Other),
            decreases b.instructions@.len() - k,
        {
            match &b.instructions[k] {
                crate::ssa::instruction::SsaInstruction::Other(_) => {
                    return false;
                },
                _ => {},
            }
            k = k + 1;
        }
        i = i + 1;
    }
    true
}

/// `out` came from `instrs` through the pipeline: `cfg` is its graph, `s`
/// the SSA form of that, `s2` what the passes made of it (`s` itself when
/// they did not run), `c` that out of SSA form, and `out` its flat layout.
pub open spec fn optimized_via(instrs: Seq<Instruction>, run_passes: bool, cfg: CFG, s: SsaCFG, s2: SsaCFG, c: CFG, out: Seq<Instruction>) -> bool {
    &&& built_from(instrs, cfg)
    &&& ssa_form_of(cfg, s)
    &&& !run_passes ==> s2 == s
    &&& run_passes ==> s2.blocks.wf()
    &&& destructed(s2, c)
    &&& laid_out(c, out)
}

/// `s2` is what the passes make of `s` when `run_passes` holds, in rounds
/// as `PassManager::run` runs them, and `s` itself otherwise.
pub open spec fn passes_made(passes: Seq<Box<dyn OptimizationPass>>, run_passes: bool, preserved: Set<u32>, s: SsaCFG, s2: SsaCFG) -> bool {
    &&& !run_passes ==> s2 == s
    &&& run_passes ==> s2.blocks.wf() && exists|gs: Seq<Seq<SsaCFG>>, cs: Seq<Seq<bool>>, rounds: int|
        #[trigger] rounds_ran(passes, s, s2, gs, cs, rounds, preserved, false)
}

/// A stage of the pipeline rejects the list: it is too large or a
/// relativistic block's end overflows, its graph is not one that
/// `ssa_accepts`, or what the passes make of its SSA form (with the given
/// passes and preserved registers) holds a placeholder or cannot be laid
/// out flat once out of SSA form.
pub open spec fn pipeline_rejects(instrs: Seq<Instruction>, passes: Seq<Box<dyn OptimizationPass>>, run_passes: bool, preserved: Set<u32>) -> bool {
    ||| !(instrs.len() < u32::MAX && pc_sums_fit(instrs))
    ||| exists|cfg: CFG| #[trigger] built_from(instrs, cfg) && !ssa_accepts(cfg)
    ||| exists|cfg: CFG, s: SsaCFG, s2: SsaCFG| #[trigger] built_from(instrs, cfg) && ssa_form_of(cfg, s)
        && #[trigger] passes_made(passes, run_passes, preserved, s, s2) && late_reject(s2)
}

/// What the passes left cannot be lowered: it holds a placeholder, or out
/// of SSA form it cannot be laid out flat.
pub open spec fn late_reject(s2: SsaCFG) -> bool {
    ||| !no_placeholders(s2)
    ||| exists|c: CFG| #[trigger] destructed(s2, c) && !flattenable(c)
}

/// Optimises an instruction list: builds its control-flow graph and SSA
/// form, runs the manager's passes when `run_passes` holds (with
/// `preserved` as the registers used elsewhere), leaves SSA form and lays
/// the graph out flat again. An empty list stays empty. Where a stage's
/// check fails (see `ssa_of_instructions`, a placeholder instruction that
/// cannot be lowered, a graph that cannot be laid out) there is no result.
#[verifier::spinoff_prover]
pub fn optimize_instructions(instrs: &Vec<Instruction>, manager: &PassManager, run_passes: bool, preserved: &HashSet<u32>) -> (r: Option<Vec<Instruction>>)
    ensures
        match r {
            Some(out) => (instrs@.len() == 0 ==> out@ == instrs@) && (instrs@.len() > 0 ==> exists|cfg: CFG, s: SsaCFG, s2: SsaCFG, c: CFG|
                #[trigger] optimized_via(instrs@, run_passes, cfg, s, s2, c, out@) && passes_made(manager.passes(), run_passes, preserved@, s, s2)),
            None => instrs@.len() > 0 && pipeline_rejects(instrs@, manager.passes(), run_passes, preserved@),
        },
{
    if instrs.len() == 0 {
        let out: Vec<Instruction> = Vec::new();
        assert(out@ =~= instrs@);
        return Some(out);
    }
    let mut s = match ssa_of_instructions(instrs) {
        Some(s) => s,
        None => {
            return None;
        },
    };
    let ghost s0 = s;
    let ghost cfg = choose|cfg: CFG| #[trigger] built_from(instrs@, cfg) && ssa_accepts(cfg) && ssa_form_of(cfg, s0);
    if run_passes {
        let rounds = manager.run(&mut s, preserved, false);
        proof {
            let (gs, cs) = choose|gs: Seq<Seq<SsaCFG>>, cs: Seq<Seq<bool>>|
                #[trigger] rounds_ran(manager.passes(), s0, s, gs, cs, rounds as int, preserved@, false);
            assert(rounds_ran(manager.passes(), s0, s, gs, cs, rounds as int, preserved@, false));
        }
    }
    let ghost s2 = s;
    assert(passes_made(manager.passes(), run_passes, preserved@, s0, s2));
    if !placeholder_free(&s) {
        assert(late_reject(s2));
        assert(built_from(instrs@, cfg) && ssa_form_of(cfg, s0) && passes_made(manager.passes(), run_passes, preserved@, s0, s2) && late_reject(s2));
        return None;
    }
    let c = destruct_ssa(s);
    if !check_flattenable(&c) {
        assert(destructed(s2, c));
        assert(late_reject(s2));
        assert(built_from(instrs@, cfg) && ssa_form_of(cfg, s0) && passes_made(manager.passes(), run_passes, preserved@, s0, s2) && late_reject(s2));
        return None;
    }
    let out = flatten_cfg(&c);
    proof {
        assert(destructed(s2, c));
        assert(laid_out(c, out@));
        assert(optimized_via(instrs@, run_passes, cfg, s0, s2, c, out@));
    }
    let ghost ov = out@;
    let r = Some(out);
    proof {
        assert(r.unwrap()@ == ov);
        assert(optimized_via(instrs@, run_passes, cfg, s0, s2, c, r.unwrap()@));
    }
    r
}


// ---------------------------------------------------------------------------
// Registers read before their definition

/// The registers of `rs` that are not in `defined`.
pub open spec fn unread(defined: Set<u32>, rs: Seq<SsaReg>) -> Set<u32> {
    Set::new(|x: u32| exists|k: int| 0 <= k < rs.len() && (#[trigger] rs[k]).reg == x && !defined.contains(x))
}

/// The scan over a phi node: its register becomes defined, and its incoming
/// registers that are not defined yet are noted.
pub open spec fn scan_phi(st: (Set<u32>, Set<u32>), p: SsaPhiNode) -> (Set<u32>, Set<u32>) {
    let d = st.0.insert(p.dest.reg);
    (d, st.1.union(unread(d, p.incoming@.map_values(|x: (BlockId, SsaReg)| x.1))))
}

pub open spec fn scan_phis(st: (Set<u32>, Set<u32>), ps: Seq<SsaPhiNode>, k: int) -> (Set<u32>, Set<u32>)
    decreases k,
{
    if k <= 0 {
        st
    } else {
        scan_phi(scan_phis(st, ps, k - 1), ps[k - 1])
    }
}

/// The scan over an instruction: its result register becomes defined, then
/// the registers it reads that are not defined are noted.
pub open spec fn scan_instr(st: (Set<u32>, Set<u32>), i: SsaInstruction) -> (Set<u32>, Set<u32>) {
    let d = match spec_ssa_defined_reg(&i) {
        Some(r) => st.0.insert(r.reg),
        None => st.0,
    };
    (d, st.1.union(unread(d, spec_ssa_used_regs(&i))))
}

pub open spec fn scan_instrs(st: (Set<u32>, Set<u32>), is: Seq<SsaInstruction>, k: int) -> (Set<u32>, Set<u32>)
    decreases k,
{
    if k <= 0 {
        st
    } else {
        scan_instr(scan_instrs(st, is, k - 1), is[k - 1])
    }
}

/// The scan over a block: phi nodes, instructions, then the registers its
/// terminator reads.
pub open spec fn scan_block(st: (Set<u32>, Set<u32>), b: SsaBasicBlock) -> (Set<u32>, Set<u32>) {
    let s1 = scan_instrs(scan_phis(st, b.phi_nodes@, b.phi_nodes@.len() as int), b.instructions@, b.instructions@.len() as int);
    (s1.0, s1.1.union(unread(s1.0, term_src_regs(b.terminator))))
}

pub open spec fn scan_blocks(st: (Set<u32>, Set<u32>), e: Seq<(BlockId, SsaBasicBlock)>, i: int) -> (Set<u32>, Set<u32>)
    decreases i,
{
    if i <= 0 {
        st
    } else {
        scan_block(scan_blocks(st, e, i - 1), e[i - 1].1)
    }
}

/// The registers of the graph that are read, in id order of the blocks,
/// before anything in the graph defines them, added to `acc`.
pub open spec fn read_before_defined(acc: Set<u32>, s: SsaCFG) -> Set<u32> {
    scan_blocks((Set::empty(), acc), s.blocks.entries@, s.blocks.entries@.len() as int).1
}

proof fn lemma_unread_step(d: Set<u32>, rs: Seq<SsaReg>, k: int)
    requires
        0 <= k < rs.len(),
    ensures
        unread(d, rs.take(k + 1)) == unread(d, rs.take(k)).union(
            if d.contains(rs[k].reg) { Set::empty() } else { set![rs[k].reg] }),
{
    let a = unread(d, rs.take(k + 1));
    let b = unread(d, rs.take(k)).union(if d.contains(rs[k].reg) { Set::empty() } else { set![rs[k].reg] });
    assert forall|x: u32| a.contains(x) <==> b.contains(x) by {
        if a.contains(x) {
            let q = choose|q: int| 0 <= q < rs.take(k + 1).len() && (#[trigger] rs.take(k + 1)[q]).reg == x && !d.contains(x);
            if q < k {
                assert(rs.take(k)[q] == rs.take(k + 1)[q]);
            }
        }
        if unread(d, rs.take(k)).contains(x) {
            let q = choose|q: int| 0 <= q < rs.take(k).len() && (#[trigger] rs.take(k)[q]).reg == x && !d.contains(x);
            assert(rs.take(k + 1)[q] == rs.take(k)[q]);
        }
        if x == rs[k].reg && !d.contains(x) {
            assert(rs.take(k + 1)[k] == rs[k]);
        }
    }
    assert(a =~= b);
}

/// Adds to `acc` the registers of `rs` that are not in `defined`.
fn add_unread(defined: &HashSet<u32>, rs: &Vec<SsaReg>, acc: &mut HashSet<u32>)
    ensures
        final(acc)@ == old(acc)@.union(unread(defined@, rs@)),
{
    let ghost a0 = acc@;
    let mut k: usize = 0;
    while k < rs.len()
        invariant
            k <= rs@.len(),
            acc@ == a0.union(unread(defined@, rs@.take(k as int))),
        decreases rs@.len() - k,
    {
        proof {
            lemma_unread_step(defined@, rs@, k as int);
        }
        if !defined.contains(&rs[k].reg) {
            acc.insert(rs[k].reg);
        }
        k = k + 1;
        assert(acc@ =~= a0.union(unread(defined@, rs@.take(k as int))));
    }
    assert(rs@.take(rs@.len() as int) =~= rs@);
}

fn scan_one_block(b: &SsaBasicBlock, defined: &mut HashSet<u32>, acc: &mut HashSet<u32>)
    ensures
        (final(defined)@, final(acc)@) == scan_block((old(defined)@, old(acc)@), *b),
{
    let ghost st0 = (defined@, acc@);
    let mut j: usize = 0;
    while j < b.phi_nodes.len()
        invariant
            j <= b.phi_nodes@.len(),
            (defined@, acc@) == scan_phis(st0, b.phi_nodes@, j as int),
        decreases b.phi_nodes@.len() - j,
    {
        let p = &b.phi_nodes[j];
        defined.insert(p.dest.reg);
        let mut regs: Vec<SsaReg> = Vec::new();
        let mut q: usize = 0;
        while q < p.incoming.len()
            invariant
                q <= p.incoming@.len(),
                regs@ == p.incoming@.map_values(|x: (BlockId, SsaReg)| x.1).take(q as int),
            decreases p.incoming@.len() - q,
        {
            regs.push(p.incoming[q].1);
            q = q + 1;
            assert(regs@ =~= p.incoming@.map_values(|x: (BlockId, SsaReg)| x.1).take(q as int));
        }
        assert(regs@ =~= p.incoming@.map_values(|x: (BlockId, SsaReg)| x.1));
        add_unread(defined, &regs, acc);
        j = j + 1;
    }
    let ghost st1 = (defined@, acc@);
    let mut k: usize = 0;
    while k < b.instructions.len()
        invariant
            k <= b.instructions@.len(),
            (defined@, acc@) == scan_instrs(st1, b.instructions@, k as int),
        decreases b.instructions@.len() - k,
    {
        let i = &b.instructions[k];
        match get_ssa_dest_reg(i) {
            Some(r) => {
                defined.insert(r.reg);
            },
            None => {},
        }
        let srcs = for_each_ssa_src_reg(i);
        add_unread(defined, &srcs, acc);
        k = k + 1;
    }
    let ts = for_each_ssa_term_src_reg(&b.terminator);
    add_unread(defined, &ts, acc);
}

/// Adds to `acc` the registers of the graph that are read, blocks in id
/// order, before anything in the graph defines them (see
/// `read_before_defined`).
pub fn note_read_before_defined(s: &SsaCFG, acc: &mut HashSet<u32>)
    ensures
        final(acc)@ == read_before_defined(old(acc)@, *s),
{
    let ghost e = s.blocks.entries@;
    let ghost a0 = acc@;
    let mut defined: HashSet<u32> = HashSet::new();
    let mut i: usize = 0;
    while i < s.blocks.entries.len()
        invariant
            e == s.blocks.entries@,
            i <= e.len(),
            (defined@, acc@) == scan_blocks((Set::empty(), a0), e, i as int),
        decreases e.len() - i,
    {
        scan_one_block(&s.blocks.entries[i].1, &mut defined, acc);
        i = i + 1;
    }
}

} // verus!
