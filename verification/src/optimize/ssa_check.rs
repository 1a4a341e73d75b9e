//! Checks of SSA graphs: every phi input must come from a predecessor, and
//! `While`/`EndWhile` and `Loop`/`EndLoop` must balance over the blocks
//! taken in id order.

use vstd::prelude::*;
use std::collections::HashSet;
use crate::blockmap::BlockId;
use crate::ssa::{SsaCFG, SsaBasicBlock, SsaPhiNode, SsaReg};
use crate::ssa::instruction::SsaInstruction;
use crate::ssa::transformer::{add_all_new, push_all_new};
use crate::optimize::OptimizationPass;
use crate::optimize::graph::{ssa_term_succs, get_terminator_successors};
use crate::text::{push_str, push_int, int_text};

verus! {

/// A finding of the checker.
#[derive(Debug, PartialEq, Eq)]
pub enum VerificationError {
    InvalidDominance { block: BlockId, reg: u32 },
    InvalidPhiPredecessor { block: BlockId, pred: BlockId },
    UnbalancedTemporalBlock { block: BlockId, reason: String },
}

/// A finding as plain values: its kind (0 for dominance, 1 for a phi
/// predecessor, 2 for an unbalanced construct), its block, its register or
/// predecessor, and its reason text.
pub open spec fn err_code(err: VerificationError) -> (int, BlockId, u32, Seq<char>) {
    match err {
        VerificationError::InvalidDominance { block, reg } => (0, block, reg, Seq::empty()),
        VerificationError::InvalidPhiPredecessor { block, pred } => (1, block, pred, Seq::empty()),
        VerificationError::UnbalancedTemporalBlock { block, reason } => (2, block, 0, reason@),
    }
}

/// The blocks an instruction passes control to through the instruction
/// map, for the indices the map holds.
pub open spec fn ssa_side_targets(s: SsaInstruction, m: Seq<BlockId>) -> Seq<BlockId> {
    match s {
        SsaInstruction::RelativisticBlock { block_pc, block_len, .. } =>
            (if block_pc < m.len() { seq![m[block_pc as int]] } else { Seq::<BlockId>::empty() })
            + (if block_pc + block_len < m.len() { seq![m[block_pc + block_len]] } else { Seq::<BlockId>::empty() }),
        SsaInstruction::Watchdog { recovery_jump: Some(pc), .. } =>
            if pc < m.len() { seq![m[pc as int]] } else { Seq::empty() },
        SsaInstruction::Speculate { fallback_target, .. } =>
            if fallback_target < m.len() { seq![m[fallback_target as int]] } else { Seq::empty() },
        SsaInstruction::EndSpeculate { fallback_target, .. } =>
            if fallback_target < m.len() { seq![m[fallback_target as int]] } else { Seq::empty() },
        _ => Seq::empty(),
    }
}

pub open spec fn block_succs_upto(b: SsaBasicBlock, m: Seq<BlockId>, k: int) -> Seq<BlockId>
    decreases k,
{
    if k <= 0 {
        ssa_term_succs(b.terminator)
    } else {
        add_all_new(block_succs_upto(b, m, k - 1), ssa_side_targets(b.instructions@[k - 1], m))
    }
}

/// All successors of a block: its terminator's targets, then each block its
/// instructions pass control to that is not listed yet.
pub open spec fn block_succs(b: SsaBasicBlock, m: Seq<BlockId>) -> Seq<BlockId> {
    block_succs_upto(b, m, b.instructions@.len() as int)
}

fn side_targets_of(s: &SsaInstruction, m: &Vec<BlockId>) -> (r: Vec<BlockId>)
    ensures
        r@ == ssa_side_targets(*s, m@),
{
    let mut r: Vec<BlockId> = Vec::new();
    match s {
        SsaInstruction::RelativisticBlock { block_pc, block_len, .. } => {
            if *block_pc < m.len() {
                r.push(m[*block_pc]);
            }
            if *block_pc < m.len() && *block_len < m.len() - *block_pc {
                r.push(m[*block_pc + *block_len]);
            }
        },
        SsaInstruction::Watchdog { recovery_jump: Some(pc), .. } => {
            if *pc < m.len() {
                r.push(m[*pc]);
            }
        },
        SsaInstruction::Speculate { fallback_target, .. } | SsaInstruction::EndSpeculate { fallback_target, .. } => {
            if *fallback_target < m.len() {
                r.push(m[*fallback_target]);
            }
        },
        _ => {},
    }
    assert(r@ =~= ssa_side_targets(*s, m@));
    r
}

/// All successors of a block (see `block_succs`).
fn get_block_successors(block: &SsaBasicBlock, ssa_cfg: &SsaCFG) -> (r: Vec<BlockId>)
    ensures
        r@ == block_succs(*block, ssa_cfg.original_pc_to_block_id@),
{
    let m = &ssa_cfg.original_pc_to_block_id;
    let mut r = get_terminator_successors(&block.terminator);
    let mut k: usize = 0;
    while k < block.instructions.len()
        invariant
            k <= block.instructions@.len(),
            r@ == block_succs_upto(*block, m@, k as int),
        decreases block.instructions@.len() - k,
    {
        let side = side_targets_of(&block.instructions[k], m);
        push_all_new(&mut r, &side);
        k = k + 1;
    }
    r
}

/// Block `p` of the graph has `k` among its successors.
pub open spec fn is_pred(g: SsaCFG, p: BlockId, k: BlockId) -> bool {
    g.blocks.has(p) && block_succs(g.blocks.at(p), g.original_pc_to_block_id@).contains(k)
}

/// Findings for the first `q` inputs of a phi node of block `k`: one for
/// each input whose block is not a predecessor of `k`.
pub open spec fn input_errors(g: SsaCFG, k: BlockId, inc: Seq<(BlockId, SsaReg)>, q: int) -> Seq<(int, BlockId, u32, Seq<char>)>
    decreases q,
{
    if q <= 0 {
        Seq::empty()
    } else {
        input_errors(g, k, inc, q - 1) + if !is_pred(g, inc[q - 1].0, k) {
            seq![(1int, k, inc[q - 1].0, Seq::<char>::empty())]
        } else {
            Seq::empty()
        }
    }
}

pub open spec fn phi_errors(g: SsaCFG, k: BlockId, phis: Seq<SsaPhiNode>, j: int) -> Seq<(int, BlockId, u32, Seq<char>)>
    decreases j,
{
    if j <= 0 {
        Seq::empty()
    } else {
        phi_errors(g, k, phis, j - 1) + input_errors(g, k, phis[j - 1].incoming@, phis[j - 1].incoming@.len() as int)
    }
}

/// Findings on phi inputs for the first `i` blocks, in block order.
pub open spec fn all_phi_errors(g: SsaCFG, i: int) -> Seq<(int, BlockId, u32, Seq<char>)>
    decreases i,
{
    if i <= 0 {
        Seq::empty()
    } else {
        let (k, b) = g.blocks.entries@[i - 1];
        all_phi_errors(g, i - 1) + phi_errors(g, k, b.phi_nodes@, b.phi_nodes@.len() as int)
    }
}

/// The `While` and `Loop` depths and the findings so far, after instruction
/// `s` of block `id`.
pub open spec fn depth_step(st: (int, int, Seq<(int, BlockId, u32, Seq<char>)>), id: BlockId, s: SsaInstruction) -> (int, int, Seq<(int, BlockId, u32, Seq<char>)>) {
    match s {
        SsaInstruction::While { .. } => (st.0 + 1, st.1, st.2),
        SsaInstruction::EndWhile { .. } => if st.0 == 0 {
            (st.0, st.1, st.2.push((2int, id, 0u32, "EndWhile without matching While"@)))
        } else {
            (st.0 - 1, st.1, st.2)
        },
        SsaInstruction::Loop { .. } => (st.0, st.1 + 1, st.2),
        SsaInstruction::EndLoop { .. } => if st.1 == 0 {
            (st.0, st.1, st.2.push((2int, id, 0u32, "EndLoop without matching Loop"@)))
        } else {
            (st.0, st.1 - 1, st.2)
        },
        _ => st,
    }
}

pub open spec fn depth_block(st: (int, int, Seq<(int, BlockId, u32, Seq<char>)>), id: BlockId, s: Seq<SsaInstruction>, k: int) -> (int, int, Seq<(int, BlockId, u32, Seq<char>)>)
    decreases k,
{
    if k <= 0 {
        st
    } else {
        depth_step(depth_block(st, id, s, k - 1), id, s[k - 1])
    }
}

/// The depths and findings after the first `i` blocks, in id order.
pub open spec fn depth_scan(g: SsaCFG, i: int) -> (int, int, Seq<(int, BlockId, u32, Seq<char>)>)
    decreases i,
{
    if i <= 0 {
        (0, 0, Seq::empty())
    } else {
        let (k, b) = g.blocks.entries@[i - 1];
        depth_block(depth_scan(g, i - 1), k, b.instructions@, b.instructions@.len() as int)
    }
}

/// Everything the checker finds, in the order it reports it.
pub open spec fn expected_errors(g: SsaCFG) -> Seq<(int, BlockId, u32, Seq<char>)> {
    let n = g.blocks.entries@.len() as int;
    let (wd, ld, tes) = depth_scan(g, n);
    all_phi_errors(g, n) + tes
        + (if wd != 0 {
            seq![(2int, g.entry_block, 0u32, "Unclosed While construct (depth: "@ + int_text(wd) + ")"@)]
        } else {
            Seq::empty()
        })
        + (if ld != 0 {
            seq![(2int, g.entry_block, 0u32, "Unclosed Loop construct (depth: "@ + int_text(ld) + ")"@)]
        } else {
            Seq::empty()
        })
}

/// How many instructions the first `i` blocks hold.
pub open spec fn instr_count(e: Seq<(BlockId, SsaBasicBlock)>, i: int) -> int
    decreases i,
{
    if i <= 0 {
        0
    } else {
        instr_count(e, i - 1) + e[i - 1].1.instructions@.len()
    }
}

proof fn lemma_depth_block_bound(st: (int, int, Seq<(int, BlockId, u32, Seq<char>)>), id: BlockId, s: Seq<SsaInstruction>, k: int)
    requires
        0 <= k <= s.len(),
        0 <= st.0,
        0 <= st.1,
    ensures
        0 <= depth_block(st, id, s, k).0 <= st.0 + k,
        0 <= depth_block(st, id, s, k).1 <= st.1 + k,
    decreases k,
{
    if k > 0 {
        lemma_depth_block_bound(st, id, s, k - 1);
    }
}

proof fn lemma_depth_scan_bound(g: SsaCFG, i: int)
    requires
        0 <= i <= g.blocks.entries@.len(),
    ensures
        0 <= depth_scan(g, i).0 <= instr_count(g.blocks.entries@, i),
        0 <= depth_scan(g, i).1 <= instr_count(g.blocks.entries@, i),
        0 <= instr_count(g.blocks.entries@, i),
    decreases i,
{
    if i > 0 {
        lemma_depth_scan_bound(g, i - 1);
        let (k, b) = g.blocks.entries@[i - 1];
        lemma_depth_block_bound(depth_scan(g, i - 1), k, b.instructions@, b.instructions@.len() as int);
    }
}

proof fn lemma_instr_count_mono(e: Seq<(BlockId, SsaBasicBlock)>, i: int, j: int)
    requires
        0 <= i <= j <= e.len(),
    ensures
        instr_count(e, i) <= instr_count(e, j),
    decreases j - i,
{
    if i < j {
        lemma_instr_count_mono(e, i, j - 1);
    }
}

fn ids_contain(v: &Vec<BlockId>, b: BlockId) -> (r: bool)
    ensures
        r == v@.contains(b),
{
    let mut i: usize = 0;
    while i < v.len()
        invariant
            i <= v@.len(),
            forall|j: int| 0 <= j < i ==> v@[j] != b,
        decreases v@.len() - i,
    {
        if v[i] == b {
            return true;
        }
        i = i + 1;
    }
    false
}

/// Checks the graph (see `expected_errors`): `Ok` when nothing is found,
/// else every finding in order.
pub fn verify_ssa_cfg(ssa_cfg: &SsaCFG) -> (r: Result<(), Vec<VerificationError>>)
    requires
        ssa_cfg.blocks.wf(),
        instr_count(ssa_cfg.blocks.entries@, ssa_cfg.blocks.entries@.len() as int) <= i32::MAX,
    ensures
        match r {
            Ok(()) => expected_errors(*ssa_cfg).len() == 0,
            Err(v) => v@.map_values(|x: VerificationError| err_code(x)) == expected_errors(*ssa_cfg)
                && expected_errors(*ssa_cfg).len() > 0,
        },
{
    let ghost g = *ssa_cfg;
    let ghost e = g.blocks.entries@;
    let ghost code = |x: VerificationError| err_code(x);
    let n = ssa_cfg.blocks.entries.len();
    // successors of every block
    let mut succs: Vec<Vec<BlockId>> = Vec::new();
    let mut i: usize = 0;
    while i < n
        invariant
            g == *ssa_cfg,
            e == g.blocks.entries@,
            n == e.len(),
            i <= n,
            succs@.len() == i,
            forall|q: int| 0 <= q < i ==> (#[trigger] succs@[q])@ == block_succs(e[q].1, g.original_pc_to_block_id@),
        decreases n - i,
    {
        succs.push(get_block_successors(&ssa_cfg.blocks.entries[i].1, ssa_cfg));
        i = i + 1;
    }
    let mut errors: Vec<VerificationError> = Vec::new();
    // phi inputs
    let mut i: usize = 0;
    while i < n
        invariant
            g == *ssa_cfg,
            g.blocks.wf(),
            e == g.blocks.entries@,
            n == e.len(),
            i <= n,
            code == |x: VerificationError| err_code(x),
            succs@.len() == n,
            forall|q: int| 0 <= q < n ==> (#[trigger] succs@[q])@ == block_succs(e[q].1, g.original_pc_to_block_id@),
            errors@.map_values(code) == all_phi_errors(g, i as int),
        decreases n - i,
    {
        let k = ssa_cfg.blocks.entries[i].0;
        let phis = &ssa_cfg.blocks.entries[i].1.phi_nodes;
        let ghost e0 = errors@.map_values(code);
        let mut j: usize = 0;
        while j < phis.len()
            invariant
                g == *ssa_cfg,
                g.blocks.wf(),
                e == g.blocks.entries@,
                n == e.len(),
                i < n,
                k == e[i as int].0,
                *phis == e[i as int].1.phi_nodes,
                code == |x: VerificationError| err_code(x),
                succs@.len() == n,
                forall|q: int| 0 <= q < n ==> (#[trigger] succs@[q])@ == block_succs(e[q].1, g.original_pc_to_block_id@),
                j <= phis@.len(),
                errors@.map_values(code) == e0 + phi_errors(g, k, phis@, j as int),
            decreases phis@.len() - j,
        {
            let inc = &phis[j].incoming;
            let ghost e1 = errors@.map_values(code);
            let mut q: usize = 0;
            while q < inc.len()
                invariant
                    g == *ssa_cfg,
                    g.blocks.wf(),
                    e == g.blocks.entries@,
                    n == e.len(),
                    code == |x: VerificationError| err_code(x),
                    succs@.len() == n,
                    forall|q: int| 0 <= q < n ==> (#[trigger] succs@[q])@ == block_succs(e[q].1, g.original_pc_to_block_id@),
                    q <= inc@.len(),
                    errors@.map_values(code) == e1 + input_errors(g, k, inc@, q as int),
                decreases inc@.len() - q,
            {
                let pred = inc[q].0;
                let valid = match ssa_cfg.blocks.find(pred) {
                    Some(p) => ids_contain(&succs[p], k),
                    None => false,
                };
                proof {
                    if ssa_cfg.blocks.has(pred) {
                        let p = ssa_cfg.blocks.pos(pred);
                        ssa_cfg.blocks.lemma_pos(p);
                    }
                    assert(valid == is_pred(g, pred, k));
                }
                let ghost eb = errors@;
                if !valid {
                    errors.push(VerificationError::InvalidPhiPredecessor { block: k, pred });
                    assert(errors@.map_values(code) =~= eb.map_values(code).push((1int, k, pred, Seq::<char>::empty())));
                }
                q = q + 1;
                assert(errors@.map_values(code) =~= e1 + input_errors(g, k, inc@, q as int));
            }
            j = j + 1;
            assert(errors@.map_values(code) =~= e0 + phi_errors(g, k, phis@, j as int));
        }
        i = i + 1;
        assert(errors@.map_values(code) =~= all_phi_errors(g, i as int));
    }
    // temporal constructs
    let mut while_depth: i32 = 0;
    let mut loop_depth: i32 = 0;
    let ghost pe = all_phi_errors(g, n as int);
    let mut i: usize = 0;
    while i < n
        invariant
            g == *ssa_cfg,
            e == g.blocks.entries@,
            n == e.len(),
            i <= n,
            code == |x: VerificationError| err_code(x),
            instr_count(e, n as int) <= i32::MAX,
            while_depth == depth_scan(g, i as int).0,
            loop_depth == depth_scan(g, i as int).1,
            errors@.map_values(code) == pe + depth_scan(g, i as int).2,
        decreases n - i,
    {
        let id = ssa_cfg.blocks.entries[i].0;
        let instrs = &ssa_cfg.blocks.entries[i].1.instructions;
        let ghost st0 = depth_scan(g, i as int);
        proof {
            lemma_depth_scan_bound(g, i as int);
            lemma_instr_count_mono(e, i + 1, n as int);
        }
        let mut k: usize = 0;
        while k < instrs.len()
            invariant
                g == *ssa_cfg,
                e == g.blocks.entries@,
                n == e.len(),
                i < n,
                id == e[i as int].0,
                *instrs == e[i as int].1.instructions,
                code == |x: VerificationError| err_code(x),
                0 <= st0.0 <= instr_count(e, i as int),
                0 <= st0.1 <= instr_count(e, i as int),
                instr_count(e, i + 1) <= i32::MAX,
                k <= instrs@.len(),
                while_depth == depth_block(st0, id, instrs@, k as int).0,
                loop_depth == depth_block(st0, id, instrs@, k as int).1,
                errors@.map_values(code) == pe + depth_block(st0, id, instrs@, k as int).2,
            decreases instrs@.len() - k,
        {
            proof {
                lemma_depth_block_bound(st0, id, instrs@, k as int);
            }
            let ghost eb = errors@;
            match &instrs[k] {
                SsaInstruction::While { .. } => {
                    while_depth = while_depth + 1;
                },
                SsaInstruction::EndWhile { .. } => {
                    if while_depth == 0 {
                        let reason = "EndWhile without matching While".to_owned();
                        errors.push(VerificationError::UnbalancedTemporalBlock { block: id, reason });
                        assert(errors@.map_values(code) =~= eb.map_values(code).push((2int, id, 0u32, "EndWhile without matching While"@)));
                    } else {
                        while_depth = while_depth - 1;
                    }
                },
                SsaInstruction::Loop { .. } => {
                    loop_depth = loop_depth + 1;
                },
                SsaInstruction::EndLoop { .. } => {
                    if loop_depth == 0 {
                        let reason = "EndLoop without matching Loop".to_owned();
                        errors.push(VerificationError::UnbalancedTemporalBlock { block: id, reason });
                        assert(errors@.map_values(code) =~= eb.map_values(code).push((2int, id, 0u32, "EndLoop without matching Loop"@)));
                    } else {
                        loop_depth = loop_depth - 1;
                    }
                },
                _ => {},
            }
            k = k + 1;
            assert(errors@.map_values(code) =~= pe + depth_block(st0, id, instrs@, k as int).2);
        }
        i = i + 1;
    }
    proof {
        lemma_depth_scan_bound(g, n as int);
    }
    let ghost te = errors@.map_values(code);
    if while_depth != 0 {
        let mut reason = "Unclosed While construct (depth: ".to_owned();
        push_int(&mut reason, while_depth as i64);
        push_str(&mut reason, ")");
        errors.push(VerificationError::UnbalancedTemporalBlock { block: ssa_cfg.entry_block, reason });
    }
    let ghost we = errors@.map_values(code);
    if loop_depth != 0 {
        let mut reason = "Unclosed Loop construct (depth: ".to_owned();
        push_int(&mut reason, loop_depth as i64);
        push_str(&mut reason, ")");
        errors.push(VerificationError::UnbalancedTemporalBlock { block: ssa_cfg.entry_block, reason });
    }
    proof {
        assert(errors@.map_values(code) =~= expected_errors(g));
    }
    if errors.len() == 0 {
        Ok(())
    } else {
        Err(errors)
    }
}

/// Checks SSA invariants and temporal rules (see `verify_ssa_cfg`); never
/// changes the graph.
pub struct VerifierPass;

impl OptimizationPass for VerifierPass {
    fn name(&self) -> (r: &'static str)
        ensures
            r@ == "verifier"@,
    {
        "verifier"
    }

    /// The findings of `verify_ssa_cfg` are for the caller to report; the
    /// pass itself leaves the graph as it is.
    open spec fn step(&self, before: SsaCFG, after: SsaCFG, globals: Set<u32>, is_routine: bool, changed: bool) -> bool {
        &&& !changed
        &&& after == before
    }

    fn run(&self, ssa_cfg: &mut SsaCFG, globally_used_regs: &HashSet<u32>, is_routine: bool) -> (changed: bool) {
        false
    }
}

} // verus!
