//! Laying a control-flow graph back out as a flat instruction list: blocks in
//! increasing id order, each followed by the jumps of its terminator, with
//! every block reference turned into the index where that block now starts.

use vstd::prelude::*;
use crate::ir::IrSelectCase;
use crate::instruction::{Instruction, same_instr};
use crate::cfg::{CFG, BasicBlock, Terminator, SelectCase};
use crate::blockmap::{BlockId, BlockMap};
use crate::ir::Reg;
use crate::ssa::{SsaCFG, SsaBasicBlock, SsaPhiNode, SsaReg, SsaTerminator, SsaSelectCase};
use crate::ssa::instruction::{SsaInstruction, erases_to, ssa_instr_to_instr};

verus! {

/// How many flat instructions a terminator becomes.
pub open spec fn term_len(t: Terminator) -> int {
    match t {
        Terminator::Branch { .. } => 2,
        Terminator::Unreachable => 0,
        _ => 1,
    }
}

/// How many flat instructions a block becomes.
pub open spec fn flat_block_len(b: BasicBlock) -> int {
    b.instructions@.len() + term_len(b.terminator)
}

/// Where the `i`-th block of `e` starts in the flat list.
pub open spec fn flat_offset(e: Seq<(BlockId, BasicBlock)>, i: int) -> int
    decreases i,
{
    if i <= 0 {
        0
    } else {
        flat_offset(e, i - 1) + flat_block_len(e[i - 1].1)
    }
}

/// Where block `id` starts in the flat list.
pub open spec fn block_offset(cfg: CFG, id: BlockId) -> int {
    flat_offset(cfg.blocks.entries@, cfg.blocks.pos(id))
}

/// Where the block that held original index `pc` starts in the flat list.
pub open spec fn pc_offset(cfg: CFG, pc: usize) -> int {
    block_offset(cfg, cfg.original_pc_to_block_id@[pc as int])
}

/// The original index `pc` falls in a block of the graph.
pub open spec fn pc_known(cfg: CFG, pc: int) -> bool {
    0 <= pc < cfg.original_pc_to_block_id@.len() && cfg.blocks.has(cfg.original_pc_to_block_id@[pc])
}

/// `o2` is `o` with each block replaced by its flat offset.
pub open spec fn opt_block_offset(cfg: CFG, o: Option<BlockId>, o2: Option<usize>) -> bool {
    match (o, o2) {
        (Some(b), Some(t)) => t == block_offset(cfg, b),
        (None, None) => true,
        _ => false,
    }
}

/// `dst` is instruction `src` with its original indices moved to the flat
/// offsets of the blocks they fell in.
pub open spec fn relocated(cfg: CFG, src: Instruction, dst: Instruction) -> bool {
    match src {
        Instruction::RelativisticBlock { target, block_pc, block_len } =>
            relativistic_fields(cfg, dst, target, block_pc, block_len),
        Instruction::Watchdog { target, timeout_ms, recovery_jump } => match dst {
            Instruction::Watchdog { target: t2, timeout_ms: m2, recovery_jump: r2 } => t2 == target && m2 == timeout_ms
                && match (recovery_jump, r2) {
                (Some(pc), Some(t)) => t == pc_offset(cfg, pc),
                (None, None) => true,
                _ => false,
            },
            _ => false,
        },
        Instruction::Speculate { max_ms, fallback_target } => match dst {
            Instruction::Speculate { max_ms: m2, fallback_target: f2 } => m2 == max_ms && f2 == pc_offset(cfg, fallback_target),
            _ => false,
        },
        Instruction::EndSpeculate { max_ms, fallback_target } => match dst {
            Instruction::EndSpeculate { max_ms: m2, fallback_target: f2 } => m2 == max_ms && f2 == pc_offset(cfg, fallback_target),
            _ => false,
        },
        _ => same_instr(dst, src),
    }
}

pub open spec fn relativistic_fields(cfg: CFG, dst: Instruction, target: String, block_pc: usize, block_len: usize) -> bool {
    match dst {
        Instruction::RelativisticBlock { target: t2, block_pc: p2, block_len: l2 } => t2 == target
            && p2 == pc_offset(cfg, block_pc)
            && l2 == pc_offset(cfg, (block_pc + block_len) as usize) - pc_offset(cfg, block_pc),
        _ => false,
    }
}

/// `c2` is select arm `c` jumping to the flat offset of its block.
pub open spec fn case_flat(cfg: CFG, c: SelectCase, c2: IrSelectCase) -> bool {
    c2.chan_id == c.chan_id && c2.dest == c.dest && c2.target == block_offset(cfg, c.target_block)
}

/// The instructions of `out` from index `at` are terminator `t` laid out.
pub open spec fn term_flat(cfg: CFG, t: Terminator, out: Seq<Instruction>, at: int) -> bool {
    match t {
        Terminator::Jump { target } => match out[at] {
            Instruction::Jump { target: x } => x == block_offset(cfg, target),
            _ => false,
        },
        Terminator::Branch { cond, then_block, else_block } => (match out[at] {
            Instruction::JumpIf { cond: c, target: x } => c == cond && x == block_offset(cfg, then_block),
            _ => false,
        }) && (match out[at + 1] {
            Instruction::Jump { target: y } => y == block_offset(cfg, else_block),
            _ => false,
        }),
        Terminator::Return { src } => out[at] == (Instruction::Return { src }),
        Terminator::MatchEntropy { target, valid_block, decayed_block, pending_block, consumed_block } => match out[at] {
            Instruction::MatchEntropy { target: t2, valid_target, decayed_target, pending_target, consumed_target } =>
                t2 == target && opt_block_offset(cfg, valid_block, valid_target)
                && opt_block_offset(cfg, decayed_block, decayed_target)
                && opt_block_offset(cfg, pending_block, pending_target)
                && opt_block_offset(cfg, consumed_block, consumed_target),
            _ => false,
        },
        Terminator::Select { max_ms, cases, timeout_block } => match out[at] {
            Instruction::Select { max_ms: m2, cases: c2, timeout_target } => m2 == max_ms
                && c2@.len() == cases@.len()
                && (forall|k: int| 0 <= k < cases@.len() ==> case_flat(cfg, #[trigger] cases@[k], c2@[k]))
                && opt_block_offset(cfg, timeout_block, timeout_target),
            _ => false,
        },
        Terminator::Unreachable => true,
    }
}

/// Block `i` of the graph is laid out in `out` at its flat offset.
#[verifier::opaque]
pub open spec fn block_emitted(cfg: CFG, out: Seq<Instruction>, i: int) -> bool {
    let e = cfg.blocks.entries@;
    let b = e[i].1;
    let at = flat_offset(e, i);
    &&& forall|k: int| 0 <= k < b.instructions@.len() ==> relocated(cfg, #[trigger] b.instructions@[k], out[at + k])
    &&& term_flat(cfg, b.terminator, out, at + b.instructions@.len())
}

/// A block that `b` refers to by id.
pub open spec fn term_refs(cfg: CFG, t: Terminator) -> bool {
    match t {
        Terminator::Jump { target } => cfg.blocks.has(target),
        Terminator::Branch { then_block, else_block, .. } => cfg.blocks.has(then_block) && cfg.blocks.has(else_block),
        Terminator::MatchEntropy { valid_block, decayed_block, pending_block, consumed_block, .. } =>
            opt_known(cfg, valid_block) && opt_known(cfg, decayed_block) && opt_known(cfg, pending_block)
            && opt_known(cfg, consumed_block),
        Terminator::Select { cases, timeout_block, .. } =>
            (forall|k: int| 0 <= k < cases@.len() ==> cfg.blocks.has(#[trigger] cases@[k].target_block))
            && opt_known(cfg, timeout_block),
        _ => true,
    }
}

pub open spec fn opt_known(cfg: CFG, o: Option<BlockId>) -> bool {
    match o {
        Some(b) => cfg.blocks.has(b),
        None => true,
    }
}

/// Every original index that the instruction refers to falls in a block.
pub open spec fn instr_refs(cfg: CFG, s: Instruction) -> bool {
    match s {
        Instruction::RelativisticBlock { block_pc, block_len, .. } => pc_known(cfg, block_pc as int)
            && pc_known(cfg, block_pc + block_len)
            && pc_offset(cfg, block_pc) <= pc_offset(cfg, (block_pc + block_len) as usize),
        Instruction::Watchdog { recovery_jump, .. } => match recovery_jump {
            Some(pc) => pc_known(cfg, pc as int),
            None => true,
        },
        Instruction::Speculate { fallback_target, .. } => pc_known(cfg, fallback_target as int),
        Instruction::EndSpeculate { fallback_target, .. } => pc_known(cfg, fallback_target as int),
        _ => true,
    }
}

/// The graph can be laid out: every block it refers to exists, a relativistic
/// block does not end before it starts, and the result fits in memory.
pub open spec fn flattenable(cfg: CFG) -> bool {
    let e = cfg.blocks.entries@;
    &&& cfg.blocks.wf()
    &&& forall|i: int| 0 <= i < e.len() ==> term_refs(cfg, (#[trigger] e[i]).1.terminator)
    &&& forall|i: int, k: int| 0 <= i < e.len() && 0 <= k < e[i].1.instructions@.len()
        ==> instr_refs(cfg, #[trigger] e[i].1.instructions@[k])
    &&& flat_offset(e, e.len() as int) <= usize::MAX
}

proof fn lemma_offset_mono(e: Seq<(BlockId, BasicBlock)>, i: int, j: int)
    requires
        0 <= i <= j <= e.len(),
    ensures
        flat_offset(e, i) <= flat_offset(e, j),
    decreases j - i,
{
    if i < j {
        lemma_offset_mono(e, i, j - 1);
    }
}

proof fn lemma_emitted_prefix(cfg: CFG, out1: Seq<Instruction>, out2: Seq<Instruction>, i: int)
    requires
        0 <= i < cfg.blocks.entries@.len(),
        block_emitted(cfg, out1, i),
        flat_offset(cfg.blocks.entries@, i + 1) <= out1.len() <= out2.len(),
        out1 == out2.subrange(0, out1.len() as int),
    ensures
        block_emitted(cfg, out2, i),
{
    reveal(block_emitted);
    let e = cfg.blocks.entries@;
    let b = e[i].1;
    let at = flat_offset(e, i);
    assert(flat_offset(e, i + 1) == at + flat_block_len(b));
    assert forall|k: int| 0 <= k < b.instructions@.len() implies relocated(cfg, #[trigger] b.instructions@[k], out2[at + k]) by {
        lemma_offset_mono(e, 0, i);
        assert(out1[at + k] == out2.subrange(0, out1.len() as int)[at + k]);
    }
    let tl = at + b.instructions@.len();
    match b.terminator {
        Terminator::Unreachable => {},
        Terminator::Branch { .. } => {
            lemma_offset_mono(e, 0, i);
            assert(out1[tl] == out2.subrange(0, out1.len() as int)[tl]);
            assert(out1[tl + 1] == out2.subrange(0, out1.len() as int)[tl + 1]);
        },
        _ => {
            lemma_offset_mono(e, 0, i);
            assert(out1[tl] == out2.subrange(0, out1.len() as int)[tl]);
        },
    }
}

/// Offset of block `id`, read from the table of block offsets.
fn offset_of(cfg: &CFG, offsets: &Vec<usize>, id: BlockId) -> (r: usize)
    requires
        cfg.blocks.wf(),
        cfg.blocks.has(id),
        offsets@.len() == cfg.blocks.entries@.len(),
        forall|i: int| 0 <= i < offsets@.len() ==> #[trigger] offsets@[i] == flat_offset(cfg.blocks.entries@, i),
    ensures
        r == block_offset(*cfg, id),
{
    match cfg.blocks.find(id) {
        Some(i) => offsets[i],
        None => 0,
    }
}

fn offset_of_opt(cfg: &CFG, offsets: &Vec<usize>, o: Option<BlockId>) -> (r: Option<usize>)
    requires
        cfg.blocks.wf(),
        opt_known(*cfg, o),
        offsets@.len() == cfg.blocks.entries@.len(),
        forall|i: int| 0 <= i < offsets@.len() ==> #[trigger] offsets@[i] == flat_offset(cfg.blocks.entries@, i),
    ensures
        opt_block_offset(*cfg, o, r),
{
    match o {
        Some(b) => Some(offset_of(cfg, offsets, b)),
        None => None,
    }
}

fn pc_offset_of(cfg: &CFG, offsets: &Vec<usize>, pc: usize) -> (r: usize)
    requires
        cfg.blocks.wf(),
        pc_known(*cfg, pc as int),
        offsets@.len() == cfg.blocks.entries@.len(),
        forall|i: int| 0 <= i < offsets@.len() ==> #[trigger] offsets@[i] == flat_offset(cfg.blocks.entries@, i),
    ensures
        r == pc_offset(*cfg, pc),
{
    offset_of(cfg, offsets, cfg.original_pc_to_block_id[pc])
}

/// The flat form of one instruction of a block.
fn relocate(cfg: &CFG, offsets: &Vec<usize>, s: &Instruction) -> (r: Instruction)
    requires
        cfg.blocks.wf(),
        instr_refs(*cfg, *s),
        offsets@.len() == cfg.blocks.entries@.len(),
        forall|i: int| 0 <= i < offsets@.len() ==> #[trigger] offsets@[i] == flat_offset(cfg.blocks.entries@, i),
    ensures
        relocated(*cfg, *s, r),
{
    match s {
        Instruction::RelativisticBlock { target, block_pc, block_len } => {
            let l = cfg.original_pc_to_block_id.len();
            assert(*block_pc + *block_len < l);
            let start = pc_offset_of(cfg, offsets, *block_pc);
            let end = pc_offset_of(cfg, offsets, *block_pc + *block_len);
            Instruction::RelativisticBlock { target: target.clone(), block_pc: start, block_len: end - start }
        },
        Instruction::Watchdog { target, timeout_ms, recovery_jump } => {
            let r = match recovery_jump {
                Some(pc) => Some(pc_offset_of(cfg, offsets, *pc)),
                None => None,
            };
            Instruction::Watchdog { target: target.clone(), timeout_ms: *timeout_ms, recovery_jump: r }
        },
        Instruction::Speculate { max_ms, fallback_target } => {
            Instruction::Speculate { max_ms: *max_ms, fallback_target: pc_offset_of(cfg, offsets, *fallback_target) }
        },
        Instruction::EndSpeculate { max_ms, fallback_target } => {
            Instruction::EndSpeculate { max_ms: *max_ms, fallback_target: pc_offset_of(cfg, offsets, *fallback_target) }
        },
        _ => s.duplicate(),
    }
}

/// Appends the flat form of terminator `t`.
fn emit_terminator(cfg: &CFG, offsets: &Vec<usize>, t: &Terminator, out: &mut Vec<Instruction>)
    requires
        cfg.blocks.wf(),
        term_refs(*cfg, *t),
        old(out)@.len() + term_len(*t) <= usize::MAX,
        offsets@.len() == cfg.blocks.entries@.len(),
        forall|i: int| 0 <= i < offsets@.len() ==> #[trigger] offsets@[i] == flat_offset(cfg.blocks.entries@, i),
    ensures
        final(out)@.len() == old(out)@.len() + term_len(*t),
        final(out)@.subrange(0, old(out)@.len() as int) == old(out)@,
        term_flat(*cfg, *t, final(out)@, old(out)@.len() as int),
{
    let ghost at = out@.len() as int;
    match t {
        Terminator::Jump { target } => {
            let x = offset_of(cfg, offsets, *target);
            out.push(Instruction::Jump { target: x });
        },
        Terminator::Branch { cond, then_block, else_block } => {
            let x = offset_of(cfg, offsets, *then_block);
            let y = offset_of(cfg, offsets, *else_block);
            out.push(Instruction::JumpIf { cond: *cond, target: x });
            out.push(Instruction::Jump { target: y });
        },
        Terminator::Return { src } => {
            out.push(Instruction::Return { src: *src });
        },
        Terminator::MatchEntropy { target, valid_block, decayed_block, pending_block, consumed_block } => {
            let v = offset_of_opt(cfg, offsets, *valid_block);
            let d = offset_of_opt(cfg, offsets, *decayed_block);
            let p = offset_of_opt(cfg, offsets, *pending_block);
            let c = offset_of_opt(cfg, offsets, *consumed_block);
            out.push(Instruction::MatchEntropy { target: *target, valid_target: v, decayed_target: d, pending_target: p, consumed_target: c });
        },
        Terminator::Select { max_ms, cases, timeout_block } => {
            let mut c2: Vec<IrSelectCase> = Vec::new();
            let mut k: usize = 0;
            while k < cases.len()
                invariant
                    cfg.blocks.wf(),
                    forall|q: int| 0 <= q < cases@.len() ==> cfg.blocks.has(#[trigger] cases@[q].target_block),
                    offsets@.len() == cfg.blocks.entries@.len(),
                    forall|i: int| 0 <= i < offsets@.len() ==> #[trigger] offsets@[i] == flat_offset(cfg.blocks.entries@, i),
                    k <= cases@.len(),
                    c2@.len() == k,
                    forall|q: int| 0 <= q < k ==> case_flat(*cfg, #[trigger] cases@[q], c2@[q]),
                decreases cases@.len() - k,
            {
                let x = offset_of(cfg, offsets, cases[k].target_block);
                c2.push(IrSelectCase { chan_id: cases[k].chan_id.clone(), dest: cases[k].dest, target: x });
                k = k + 1;
            }
            let tt = offset_of_opt(cfg, offsets, *timeout_block);
            out.push(Instruction::Select { max_ms: *max_ms, cases: c2, timeout_target: tt });
        },
        Terminator::Unreachable => {},
    }
    assert(out@.subrange(0, at) =~= old(out)@);
}

/// Appends the flat form of block `i`.
fn emit_block(cfg: &CFG, offsets: &Vec<usize>, i: usize, out: &mut Vec<Instruction>)
    requires
        flattenable(*cfg),
        i < cfg.blocks.entries@.len(),
        offsets@.len() == cfg.blocks.entries@.len(),
        forall|q: int| 0 <= q < offsets@.len() ==> #[trigger] offsets@[q] == flat_offset(cfg.blocks.entries@, q),
        old(out)@.len() == flat_offset(cfg.blocks.entries@, i as int),
    ensures
        final(out)@.len() == flat_offset(cfg.blocks.entries@, i + 1),
        final(out)@.subrange(0, old(out)@.len() as int) == old(out)@,
        block_emitted(*cfg, final(out)@, i as int),
{
    let ghost e = cfg.blocks.entries@;
    let ghost n = e.len();
        let b = &cfg.blocks.entries[i].1;
    let ghost at = out@.len() as int;
    let ghost out0 = out@;
    proof {
        lemma_offset_mono(e, i + 1, n as int);
        lemma_offset_mono(e, 0, i as int);
    }
    let mut k: usize = 0;
    while k < b.instructions.len()
        invariant
            flattenable(*cfg),
            e == cfg.blocks.entries@,
            n == e.len(),
            i < n,
            *b == e[i as int].1,
            offsets@.len() == n,
            forall|q: int| 0 <= q < n ==> #[trigger] offsets@[q] == flat_offset(e, q),
            at == flat_offset(e, i as int),
            0 <= at,
            at + flat_block_len(*b) <= usize::MAX,
            k <= b.instructions@.len(),
            out@.len() == at + k,
            out@.subrange(0, at) == out0,
            forall|q: int| 0 <= q < k ==> relocated(*cfg, #[trigger] b.instructions@[q], out@[at + q]),
        decreases b.instructions@.len() - k,
    {
        let r = relocate(cfg, offsets, &b.instructions[k]);
        let ghost before = out@;
        out.push(r);
        proof {
            assert forall|q: int| 0 <= q < k + 1 implies relocated(*cfg, #[trigger] b.instructions@[q], out@[at + q]) by {
                if q < k {
                    assert(out@[at + q] == before[at + q]);
                }
            }
        }
        k = k + 1;
        assert(out@.subrange(0, at) =~= out0);
    }
    let ghost mid = out@;
    emit_terminator(cfg, offsets, &b.terminator, out);
    proof {
        assert(out@.subrange(0, at) =~= out0);
        assert forall|q: int| 0 <= q < b.instructions@.len() implies relocated(*cfg, #[trigger] b.instructions@[q], out@[at + q]) by {
            assert(out@[at + q] == mid[at + q]);
        }
        reveal(block_emitted);
        assert(block_emitted(*cfg, out@, i as int));
    }
}

/// Where each block starts in the flat list.
fn block_offsets(cfg: &CFG) -> (offsets: Vec<usize>)
    requires
        flat_offset(cfg.blocks.entries@, cfg.blocks.entries@.len() as int) <= usize::MAX,
    ensures
        offsets@.len() == cfg.blocks.entries@.len(),
        forall|q: int| 0 <= q < offsets@.len() ==> #[trigger] offsets@[q] == flat_offset(cfg.blocks.entries@, q),
{
    let ghost e = cfg.blocks.entries@;
    let n = cfg.blocks.entries.len();
    let mut offsets: Vec<usize> = Vec::new();
    let mut total: usize = 0;
    let mut i: usize = 0;
    while i < n
        invariant
            e == cfg.blocks.entries@,
            n == e.len(),
            flat_offset(e, n as int) <= usize::MAX,
            i <= n,
            offsets@.len() == i,
            total == flat_offset(e, i as int),
            forall|q: int| 0 <= q < i ==> #[trigger] offsets@[q] == flat_offset(e, q),
        decreases n - i,
    {
        proof {
            lemma_offset_mono(e, i + 1, n as int);
        }
        offsets.push(total);
        let b = &cfg.blocks.entries[i].1;
        let tl: usize = match &b.terminator {
            Terminator::Branch { .. } => 2,
            Terminator::Unreachable => 0,
            _ => 1,
        };
        total = total + b.instructions.len() + tl;
        i = i + 1;
    }
    offsets
}

/// Whether the flat layout of the graph fits in memory.
fn flat_total_fits(cfg: &CFG) -> (r: bool)
    ensures
        r == (flat_offset(cfg.blocks.entries@, cfg.blocks.entries@.len() as int) <= usize::MAX),
{
    let ghost e = cfg.blocks.entries@;
    let n = cfg.blocks.entries.len();
    let mut total: usize = 0;
    let mut i: usize = 0;
    while i < n
        invariant
            e == cfg.blocks.entries@,
            n == e.len(),
            i <= n,
            total == flat_offset(e, i as int),
        decreases n - i,
    {
        let b = &cfg.blocks.entries[i].1;
        let tl: usize = match &b.terminator {
            Terminator::Branch { .. } => 2,
            Terminator::Unreachable => 0,
            _ => 1,
        };
        assert(flat_offset(e, i + 1) == total + b.instructions@.len() + tl);
        match total.checked_add(b.instructions.len()) {
            Some(t1) => match t1.checked_add(tl) {
                Some(t2) => {
                    total = t2;
                },
                None => {
                    proof {
                        lemma_offset_mono(e, i + 1, n as int);
                    }
                    return false;
                },
            },
            None => {
                proof {
                    lemma_offset_mono(e, i + 1, n as int);
                }
                return false;
            },
        }
        i = i + 1;
    }
    true
}

fn known_opt(cfg: &CFG, o: Option<BlockId>) -> (r: bool)
    requires
        cfg.blocks.wf(),
    ensures
        r == opt_known(*cfg, o),
{
    match o {
        Some(b) => cfg.blocks.find(b).is_some(),
        None => true,
    }
}

fn known_pc(cfg: &CFG, pc: usize) -> (r: bool)
    requires
        cfg.blocks.wf(),
    ensures
        r == pc_known(*cfg, pc as int),
{
    pc < cfg.original_pc_to_block_id.len() && cfg.blocks.find(cfg.original_pc_to_block_id[pc]).is_some()
}

fn term_refs_ok(cfg: &CFG, t: &Terminator) -> (r: bool)
    requires
        cfg.blocks.wf(),
    ensures
        r == term_refs(*cfg, *t),
{
    match t {
        Terminator::Jump { target } => cfg.blocks.find(*target).is_some(),
        Terminator::Branch { then_block, else_block, .. } =>
            cfg.blocks.find(*then_block).is_some() && cfg.blocks.find(*else_block).is_some(),
        Terminator::MatchEntropy { valid_block, decayed_block, pending_block, consumed_block, .. } =>
            known_opt(cfg, *valid_block) && known_opt(cfg, *decayed_block) && known_opt(cfg, *pending_block)
            && known_opt(cfg, *consumed_block),
        Terminator::Select { cases, timeout_block, .. } => {
            let mut ok = known_opt(cfg, *timeout_block);
            let mut c: usize = 0;
            while c < cases.len()
                invariant
                    cfg.blocks.wf(),
                    c <= cases@.len(),
                    ok == (opt_known(*cfg, *timeout_block) && forall|q: int| 0 <= q < c ==> cfg.blocks.has(#[trigger] cases@[q].target_block)),
                decreases cases@.len() - c,
            {
                if cfg.blocks.find(cases[c].target_block).is_none() {
                    ok = false;
                }
                c = c + 1;
            }
            assert(ok == term_refs(*cfg, *t));
            ok
        },
        _ => true,
    }
}

fn instr_refs_ok(cfg: &CFG, offsets: &Vec<usize>, s: &Instruction) -> (r: bool)
    requires
        cfg.blocks.wf(),
        offsets@.len() == cfg.blocks.entries@.len(),
        forall|q: int| 0 <= q < offsets@.len() ==> #[trigger] offsets@[q] == flat_offset(cfg.blocks.entries@, q),
    ensures
        r == instr_refs(*cfg, *s),
{
    match s {
        Instruction::RelativisticBlock { block_pc, block_len, .. } => {
            match block_pc.checked_add(*block_len) {
                Some(end) => {
                    if known_pc(cfg, *block_pc) && known_pc(cfg, end) {
                        pc_offset_of(cfg, offsets, *block_pc) <= pc_offset_of(cfg, offsets, end)
                    } else {
                        false
                    }
                },
                None => {
                    // The end overflows, so it lies past the instruction map.
                    let pcs = cfg.original_pc_to_block_id.len();
                    assert(*block_pc + *block_len > pcs);
                    false
                },
            }
        },
        Instruction::Watchdog { recovery_jump, .. } => match recovery_jump {
            Some(pc) => known_pc(cfg, *pc),
            None => true,
        },
        Instruction::Speculate { fallback_target, .. } => known_pc(cfg, *fallback_target),
        Instruction::EndSpeculate { fallback_target, .. } => known_pc(cfg, *fallback_target),
        _ => true,
    }
}

/// Whether every instruction of the list refers only to indices that fall
/// in blocks (see `instr_refs`).
fn instrs_refs_ok(cfg: &CFG, offsets: &Vec<usize>, is: &Vec<Instruction>) -> (r: bool)
    requires
        cfg.blocks.wf(),
        offsets@.len() == cfg.blocks.entries@.len(),
        forall|q: int| 0 <= q < offsets@.len() ==> #[trigger] offsets@[q] == flat_offset(cfg.blocks.entries@, q),
    ensures
        r == forall|k: int| 0 <= k < is@.len() ==> instr_refs(*cfg, #[trigger] is@[k]),
{
    let mut k: usize = 0;
    while k < is.len()
        invariant
            cfg.blocks.wf(),
            offsets@.len() == cfg.blocks.entries@.len(),
            forall|q: int| 0 <= q < offsets@.len() ==> #[trigger] offsets@[q] == flat_offset(cfg.blocks.entries@, q),
            k <= is@.len(),
            forall|q: int| 0 <= q < k ==> instr_refs(*cfg, #[trigger] is@[q]),
        decreases is@.len() - k,
    {
        if !instr_refs_ok(cfg, offsets, &is[k]) {
            return false;
        }
        k = k + 1;
    }
    true
}

/// Whether the graph can be laid out flat (see `flattenable`).
#[verifier::rlimit(40)]
pub fn check_flattenable(cfg: &CFG) -> (r: bool)
    requires
        cfg.blocks.wf(),
    ensures
        r == flattenable(*cfg),
{
    if !flat_total_fits(cfg) {
        return false;
    }
    let offsets = block_offsets(cfg);
    let ghost e = cfg.blocks.entries@;
    let n = cfg.blocks.entries.len();
    let mut i: usize = 0;
    while i < n
        invariant
            cfg.blocks.wf(),
            e == cfg.blocks.entries@,
            n == e.len(),
            i <= n,
            flat_offset(e, e.len() as int) <= usize::MAX,
            offsets@.len() == n,
            forall|q: int| 0 <= q < n ==> #[trigger] offsets@[q] == flat_offset(e, q),
            forall|q: int| 0 <= q < i ==> term_refs(*cfg, (#[trigger] e[q]).1.terminator),
            forall|q: int, k: int| 0 <= q < i && 0 <= k < e[q].1.instructions@.len()
                ==> instr_refs(*cfg, #[trigger] e[q].1.instructions@[k]),
        decreases n - i,
    {
        let b = &cfg.blocks.entries[i].1;
        if !term_refs_ok(cfg, &b.terminator) {
            assert(!term_refs(*cfg, e[i as int].1.terminator));
            return false;
        }
        if !instrs_refs_ok(cfg, &offsets, &b.instructions) {
            proof {
                let k = choose|k: int| 0 <= k < b.instructions@.len() && !instr_refs(*cfg, #[trigger] b.instructions@[k]);
                assert(!instr_refs(*cfg, e[i as int].1.instructions@[k]));
            }
            return false;
        }
        proof {
            assert forall|q: int, k: int| 0 <= q < i + 1 && 0 <= k < e[q].1.instructions@.len()
                implies instr_refs(*cfg, #[trigger] e[q].1.instructions@[k]) by {
                if q == i {
                    assert(e[q].1.instructions@[k] == b.instructions@[k]);
                }
            }
        }
        i = i + 1;
    }
    true
}

/// Lays the graph out as a flat instruction list. Blocks come in increasing
/// id order; each block's instructions are followed by its terminator as
/// jumps (a branch becomes a conditional jump to the then-block and a jump to
/// the else-block; an unreachable terminator becomes nothing). Every block
/// reference, and every original index a relativistic block, watchdog or
/// speculation refers to, becomes the index where that block now starts.
#[verifier::spinoff_prover]
#[verifier::rlimit(60)]
pub fn flatten_cfg(cfg: &CFG) -> (out: Vec<Instruction>)
    requires
        flattenable(*cfg),
    ensures
        out@.len() == flat_offset(cfg.blocks.entries@, cfg.blocks.entries@.len() as int),
        forall|i: int| 0 <= i < cfg.blocks.entries@.len() ==> #[trigger] block_emitted(*cfg, out@, i),
{
    let ghost e = cfg.blocks.entries@;
    let n = cfg.blocks.entries.len();
    let offsets = block_offsets(cfg);
    let mut out: Vec<Instruction> = Vec::new();
    let mut i: usize = 0;
    while i < n
        invariant
            flattenable(*cfg),
            e == cfg.blocks.entries@,
            n == e.len(),
            i <= n,
            offsets@.len() == n,
            forall|q: int| 0 <= q < n ==> #[trigger] offsets@[q] == flat_offset(e, q),
            out@.len() == flat_offset(e, i as int),
            forall|q: int| 0 <= q < i ==> #[trigger] block_emitted(*cfg, out@, q),
        decreases n - i,
    {
        let ghost out0 = out@;
        emit_block(cfg, &offsets, i, &mut out);
        proof {
            assert forall|q: int| 0 <= q < i implies #[trigger] block_emitted(*cfg, out@, q) by {
                lemma_offset_mono(e, q + 1, i as int);
                lemma_emitted_prefix(*cfg, out0, out@, q);
            }
        }
        i = i + 1;
    }
    out
}

/// The flat register an SSA register is a version of.
pub fn ssa_reg_to_reg(r: SsaReg) -> (f: Reg)
    ensures
        f.0 == r.reg,
{
    Reg(r.reg)
}

/// The flat register of an optional SSA register.
pub open spec fn erase_opt(o: Option<SsaReg>) -> Option<Reg> {
    match o {
        Some(r) => Some(Reg(r.reg)),
        None => None,
    }
}

/// `c2` is select arm `c` without register versions.
pub open spec fn case_erased(c: SsaSelectCase, c2: SelectCase) -> bool {
    c2.chan_id == c.chan_id && c2.dest == Reg(c.dest.reg) && c2.target_block == c.target as BlockId
}

/// `f` is terminator `t` without register versions.
pub open spec fn term_erased(t: SsaTerminator, f: Terminator) -> bool {
    match t {
        SsaTerminator::Jump { target } => f == (Terminator::Jump { target }),
        SsaTerminator::Branch { cond, then_block, else_block } =>
            f == (Terminator::Branch { cond: Reg(cond.reg), then_block, else_block }),
        SsaTerminator::Return { src } => f == (Terminator::Return { src: erase_opt(src) }),
        SsaTerminator::MatchEntropy { target, valid_block, decayed_block, pending_block, consumed_block } =>
            f == (Terminator::MatchEntropy { target: Reg(target.reg), valid_block, decayed_block, pending_block, consumed_block }),
        SsaTerminator::Select { max_ms, cases, timeout_block } => match f {
            Terminator::Select { max_ms: m2, cases: c2, timeout_block: t2 } => m2 == max_ms && t2 == timeout_block
                && c2@.len() == cases@.len()
                && forall|k: int| 0 <= k < cases@.len() ==> case_erased(#[trigger] cases@[k], c2@[k]),
            _ => false,
        },
        SsaTerminator::Unreachable => f == Terminator::Unreachable,
    }
}

/// The moves that the first `k` incoming values of `phi` put at the end of
/// block `p`: one for each value that comes from `p` in another register.
pub open spec fn incoming_moves(phi: SsaPhiNode, k: int, p: BlockId) -> Seq<Instruction>
    decreases k,
{
    if k <= 0 {
        Seq::empty()
    } else {
        let (pred, r) = phi.incoming@[k - 1];
        if pred == p && phi.dest.reg != r.reg {
            incoming_moves(phi, k - 1, p).push(Instruction::Move { dest: Reg(phi.dest.reg), src: Reg(r.reg) })
        } else {
            incoming_moves(phi, k - 1, p)
        }
    }
}

/// The moves that the first `j` phi nodes of a block put at the end of `p`.
pub open spec fn phi_moves(phis: Seq<SsaPhiNode>, j: int, p: BlockId) -> Seq<Instruction>
    decreases j,
{
    if j <= 0 {
        Seq::empty()
    } else {
        phi_moves(phis, j - 1, p) + incoming_moves(phis[j - 1], phis[j - 1].incoming@.len() as int, p)
    }
}

/// The moves that the phi nodes of the first `i` blocks put at the end of `p`.
pub open spec fn block_moves(e: Seq<(BlockId, SsaBasicBlock)>, i: int, p: BlockId) -> Seq<Instruction>
    decreases i,
{
    if i <= 0 {
        Seq::empty()
    } else {
        block_moves(e, i - 1, p) + phi_moves(e[i - 1].1.phi_nodes@, e[i - 1].1.phi_nodes@.len() as int, p)
    }
}

/// `b2` is SSA block `b`, stored under `id`, without register versions and
/// closed by the moves that the graph's phi nodes ask of it.
pub open spec fn block_destructed(e: Seq<(BlockId, SsaBasicBlock)>, id: BlockId, b: SsaBasicBlock, b2: BasicBlock) -> bool {
    let moves = block_moves(e, e.len() as int, id);
    let n = b.instructions@.len();
    &&& b2.id == id
    &&& b2.instructions@.len() == n + moves.len()
    &&& forall|k: int| 0 <= k < n ==> erases_to(#[trigger] b.instructions@[k], b2.instructions@[k])
    &&& forall|k: int| 0 <= k < moves.len() ==> b2.instructions@[n + k] == #[trigger] moves[k]
    &&& term_erased(b.terminator, b2.terminator)
}

/// No instruction of the graph is an unlowerable placeholder.
pub open spec fn no_placeholders(ssa: SsaCFG) -> bool {
    forall|i: int, k: int| 0 <= i < ssa.blocks.entries@.len() && 0 <= k < ssa.blocks.entries@[i].1.instructions@.len()
        ==> !(#[trigger] ssa.blocks.entries@[i].1.instructions@[k] is Other)
}

fn erase_terminator(t: &SsaTerminator) -> (f: Terminator)
    ensures
        term_erased(*t, f),
{
    match t {
        SsaTerminator::Jump { target } => Terminator::Jump { target: *target },
        SsaTerminator::Branch { cond, then_block, else_block } =>
            Terminator::Branch { cond: ssa_reg_to_reg(*cond), then_block: *then_block, else_block: *else_block },
        SsaTerminator::Return { src } => Terminator::Return {
            src: match src {
                Some(r) => Some(ssa_reg_to_reg(*r)),
                None => None,
            },
        },
        SsaTerminator::MatchEntropy { target, valid_block, decayed_block, pending_block, consumed_block } =>
            Terminator::MatchEntropy {
                target: ssa_reg_to_reg(*target),
                valid_block: *valid_block,
                decayed_block: *decayed_block,
                pending_block: *pending_block,
                consumed_block: *consumed_block,
            },
        SsaTerminator::Select { max_ms, cases, timeout_block } => {
            let mut c2: Vec<SelectCase> = Vec::new();
            let mut k: usize = 0;
            while k < cases.len()
                invariant
                    k <= cases@.len(),
                    c2@.len() == k,
                    forall|q: int| 0 <= q < k ==> case_erased(#[trigger] cases@[q], c2@[q]),
                decreases cases@.len() - k,
            {
                let c = &cases[k];
                c2.push(SelectCase { chan_id: c.chan_id.clone(), dest: ssa_reg_to_reg(c.dest), target_block: c.target as BlockId });
                k = k + 1;
            }
            Terminator::Select { max_ms: *max_ms, cases: c2, timeout_block: *timeout_block }
        },
        SsaTerminator::Unreachable => Terminator::Unreachable,
    }
}

/// Appends the moves that the graph's phi nodes put at the end of block `p`.
fn push_moves(e: &Vec<(BlockId, SsaBasicBlock)>, p: BlockId, out: &mut Vec<Instruction>)
    ensures
        final(out)@ == old(out)@ + block_moves(e@, e@.len() as int, p),
{
    let mut i: usize = 0;
    while i < e.len()
        invariant
            i <= e@.len(),
            out@ == old(out)@ + block_moves(e@, i as int, p),
        decreases e@.len() - i,
    {
        let phis = &e[i].1.phi_nodes;
        let ghost o1 = out@;
        let mut j: usize = 0;
        while j < phis.len()
            invariant
                *phis == e@[i as int].1.phi_nodes,
                j <= phis@.len(),
                out@ == o1 + phi_moves(phis@, j as int, p),
            decreases phis@.len() - j,
        {
            let phi = &phis[j];
            let ghost o2 = out@;
            let mut k: usize = 0;
            while k < phi.incoming.len()
                invariant
                    k <= phi.incoming@.len(),
                    out@ == o2 + incoming_moves(*phi, k as int, p),
                decreases phi.incoming@.len() - k,
            {
                let (pred, r) = phi.incoming[k];
                if pred == p && phi.dest.reg != r.reg {
                    out.push(Instruction::Move { dest: Reg(phi.dest.reg), src: Reg(r.reg) });
                }
                k = k + 1;
                assert(out@ =~= o2 + incoming_moves(*phi, k as int, p));
            }
            j = j + 1;
            assert(out@ =~= o1 + phi_moves(phis@, j as int, p));
        }
        i = i + 1;
        assert(out@ =~= old(out)@ + block_moves(e@, i as int, p));
    }
}

/// Leaves SSA form: every block loses its register versions, and for each
/// phi node, each predecessor whose incoming value sits in another register
/// gets a move of that value into the phi's register appended to its
/// instructions.
pub fn destruct_ssa(ssa_cfg: SsaCFG) -> (cfg: CFG)
    requires
        ssa_cfg.blocks.wf(),
        no_placeholders(ssa_cfg),
    ensures
        cfg.entry_block == ssa_cfg.entry_block,
        cfg.original_pc_to_block_id@ == ssa_cfg.original_pc_to_block_id@,
        cfg.blocks.wf(),
        cfg.blocks.entries@.len() == ssa_cfg.blocks.entries@.len(),
        forall|i: int| 0 <= i < ssa_cfg.blocks.entries@.len() ==> (#[trigger] cfg.blocks.entries@[i]).0 == ssa_cfg.blocks.entries@[i].0
            && block_destructed(ssa_cfg.blocks.entries@, ssa_cfg.blocks.entries@[i].0, ssa_cfg.blocks.entries@[i].1, cfg.blocks.entries@[i].1),
{
    let e = &ssa_cfg.blocks.entries;
    let mut entries: Vec<(BlockId, BasicBlock)> = Vec::new();
    let mut i: usize = 0;
    while i < e.len()
        invariant
            *e == ssa_cfg.blocks.entries,
            ssa_cfg.blocks.wf(),
            no_placeholders(ssa_cfg),
            i <= e@.len(),
            entries@.len() == i,
            forall|q: int| 0 <= q < i ==> (#[trigger] entries@[q]).0 == e@[q].0
                && block_destructed(e@, e@[q].0, e@[q].1, entries@[q].1),
        decreases e@.len() - i,
    {
        let id = e[i].0;
        let b = &e[i].1;
        let mut instrs: Vec<Instruction> = Vec::new();
        let mut k: usize = 0;
        while k < b.instructions.len()
            invariant
                *b == e@[i as int].1,
                no_placeholders(ssa_cfg),
                *e == ssa_cfg.blocks.entries,
                i < e@.len(),
                k <= b.instructions@.len(),
                instrs@.len() == k,
                forall|q: int| 0 <= q < k ==> erases_to(#[trigger] b.instructions@[q], instrs@[q]),
            decreases b.instructions@.len() - k,
        {
            assert(!(ssa_cfg.blocks.entries@[i as int].1.instructions@[k as int] is Other));
            instrs.push(ssa_instr_to_instr(&b.instructions[k]));
            k = k + 1;
        }
        let ghost before = instrs@;
        push_moves(e, id, &mut instrs);
        let nb = BasicBlock { id, instructions: instrs, terminator: erase_terminator(&b.terminator) };
        proof {
            let moves = block_moves(e@, e@.len() as int, id);
            assert forall|k: int| 0 <= k < b.instructions@.len() implies erases_to(#[trigger] b.instructions@[k], nb.instructions@[k]) by {
                assert(nb.instructions@[k] == before[k]);
            }
            assert forall|k: int| 0 <= k < moves.len() implies nb.instructions@[b.instructions@.len() + k] == #[trigger] moves[k] by {}
        }
        entries.push((id, nb));
        i = i + 1;
    }
    let out = CFG {
        entry_block: ssa_cfg.entry_block,
        blocks: BlockMap { entries },
        original_pc_to_block_id: ssa_cfg.original_pc_to_block_id,
    };
    proof {
        assert forall|a: int, b: int| 0 <= a < b < out.blocks.entries@.len() implies
            (#[trigger] out.blocks.entries@[a]).0 < (#[trigger] out.blocks.entries@[b]).0 by {
            assert(ssa_cfg.blocks.entries@[a].0 < ssa_cfg.blocks.entries@[b].0);
        }
    }
    out
}

} // verus!
