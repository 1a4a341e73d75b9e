//! Control-flow graphs over flat instructions: splitting an instruction list
//! into basic blocks at its leaders.

use vstd::prelude::*;
use crate::ir::{Reg, IrSelectCase};
use crate::instruction::{Instruction, same_instr};
use crate::blockmap::{BlockId, BlockMap};

verus! {

/// A control-flow graph of basic blocks.
#[derive(Debug, Clone, PartialEq, Eq)]
pub struct CFG {
    pub entry_block: BlockId,
    pub blocks: BlockMap<BasicBlock>,
    /// For each instruction index of the flat list the graph was built from
    /// (and one past the end), the block that holds it.
    pub original_pc_to_block_id: Vec<BlockId>,
}

/// A straight-line run of instructions closed by a terminator.
#[derive(Debug, Clone, PartialEq, Eq)]
pub struct BasicBlock {
    pub id: BlockId,
    pub instructions: Vec<Instruction>,
    pub terminator: Terminator,
}

/// One arm of a `Select` terminator.
#[derive(Debug, Clone, PartialEq, Eq)]
pub struct SelectCase {
    pub chan_id: String,
    pub dest: Reg,
    pub target_block: BlockId,
}

/// How control leaves a basic block.
#[derive(Debug, Clone, PartialEq, Eq)]
pub enum Terminator {
    Jump { target: BlockId },
    Branch { cond: Reg, then_block: BlockId, else_block: BlockId },
    Return { src: Option<Reg> },
    MatchEntropy {
        target: Reg,
        valid_block: Option<BlockId>,
        decayed_block: Option<BlockId>,
        pending_block: Option<BlockId>,
        consumed_block: Option<BlockId>,
    },
    Select { max_ms: u64, cases: Vec<SelectCase>, timeout_block: Option<BlockId> },
    Unreachable,
}

pub open spec fn opt_is(o: Option<usize>, p: int) -> bool {
    match o {
        Some(t) => t == p,
        None => false,
    }
}

/// Does the instruction at index `idx` make index `p` the start of a block?
pub open spec fn leader_marks(instr: Instruction, idx: int, p: int) -> bool {
    match instr {
        Instruction::Jump { target } => p == target || p == idx + 1,
        Instruction::JumpIf { target, .. } => p == target || p == idx + 1,
        Instruction::JumpIfNot { target, .. } => p == target || p == idx + 1,
        Instruction::Return { .. } => p == idx + 1,
        Instruction::MatchEntropy {
            valid_target,
            decayed_target,
            pending_target,
            consumed_target,
            ..
        } => opt_is(valid_target, p) || opt_is(decayed_target, p) || opt_is(pending_target, p)
            || opt_is(consumed_target, p) || p == idx + 1,
        Instruction::Select { cases, timeout_target, .. } => (exists|k: int|
            0 <= k < cases@.len() && (#[trigger] cases@[k]).target == p) || opt_is(timeout_target, p)
            || p == idx + 1,
        Instruction::Watchdog { recovery_jump, .. } => opt_is(recovery_jump, p) || p == idx + 1,
        Instruction::Speculate { fallback_target, .. } => p == fallback_target || p == idx + 1,
        Instruction::EndSpeculate { fallback_target, .. } => p == fallback_target || p == idx + 1,
        Instruction::RelativisticBlock { block_pc, block_len, .. } => p == block_pc || p == block_pc
            + block_len || p == idx + 1,
        Instruction::Loop { .. } => p == idx,
        Instruction::EndLoop { .. } => p == idx,
        Instruction::LoopTick => p == idx,
        Instruction::EndLoopTick => p == idx,
        Instruction::LoopTickOn { .. } => p == idx,
        Instruction::While { .. } => p == idx,
        Instruction::EndWhile { .. } => p == idx,
        Instruction::For { .. } => p == idx,
        Instruction::EndFor => p == idx,
        Instruction::ForStep { .. } => p == idx,
        Instruction::EndForStep => p == idx,
        _ => false,
    }
}

/// Index `p` starts a basic block: it is 0, or some instruction marks it, and
/// it lies within the list or one past its end.
pub open spec fn is_leader(instrs: Seq<Instruction>, p: int) -> bool {
    0 <= p <= instrs.len() && (p == 0 || exists|i: int|
        0 <= i < instrs.len() && #[trigger] leader_marks(instrs[i], i, p))
}

/// The leaders below `m`, in increasing order.
pub open spec fn leaders_upto(instrs: Seq<Instruction>, m: int) -> Seq<int>
    decreases m,
{
    if m <= 0 {
        Seq::empty()
    } else if is_leader(instrs, m - 1) {
        leaders_upto(instrs, m - 1).push(m - 1)
    } else {
        leaders_upto(instrs, m - 1)
    }
}

/// All leaders, in increasing order; block `b` starts at `leaders(instrs)[b]`.
pub open spec fn leaders(instrs: Seq<Instruction>) -> Seq<int> {
    leaders_upto(instrs, instrs.len() + 1 as int)
}

/// The block that holds instruction index `pc`: the last block starting at or before it.
pub open spec fn block_of(instrs: Seq<Instruction>, pc: int) -> int {
    leaders_upto(instrs, pc + 1).len() - 1
}

/// Start of block `b`.
pub open spec fn block_start(instrs: Seq<Instruction>, b: int) -> int {
    leaders(instrs)[b]
}

/// End (exclusive) of block `b`.
pub open spec fn block_end(instrs: Seq<Instruction>, b: int) -> int {
    if b + 1 < leaders(instrs).len() {
        leaders(instrs)[b + 1]
    } else {
        instrs.len() as int
    }
}

/// Instructions that close a block and become its terminator.
pub open spec fn is_control(instr: Instruction) -> bool {
    match instr {
        Instruction::Jump { .. } => true,
        Instruction::JumpIf { .. } => true,
        Instruction::JumpIfNot { .. } => true,
        Instruction::Return { .. } => true,
        Instruction::MatchEntropy { .. } => true,
        Instruction::Select { .. } => true,
        _ => false,
    }
}

/// Number of instructions that block `b` keeps in its body.
pub open spec fn body_len(instrs: Seq<Instruction>, b: int) -> int {
    let s = block_start(instrs, b);
    let e = block_end(instrs, b);
    if s < instrs.len() {
        if is_control(instrs[e - 1]) {
            e - s - 1
        } else {
            e - s
        }
    } else {
        0
    }
}

pub open spec fn map_target(instrs: Seq<Instruction>, t: Option<usize>) -> Option<BlockId> {
    match t {
        Some(pc) => Some(block_of(instrs, pc as int) as BlockId),
        None => None,
    }
}

pub open spec fn map_case(instrs: Seq<Instruction>, c: IrSelectCase) -> SelectCase {
    SelectCase {
        chan_id: c.chan_id,
        dest: c.dest,
        target_block: block_of(instrs, c.target as int) as BlockId,
    }
}

/// The terminator that block `b` ends with.
pub open spec fn terminator_of(instrs: Seq<Instruction>, b: int, t: Terminator) -> bool {
    let s = block_start(instrs, b);
    let e = block_end(instrs, b);
    if s >= instrs.len() {
        t == Terminator::Return { src: None }
    } else {
        match instrs[e - 1] {
            Instruction::Jump { target } => t == Terminator::Jump {
                target: block_of(instrs, target as int) as BlockId,
            },
            Instruction::JumpIf { cond, target } => t == Terminator::Branch {
                cond,
                then_block: block_of(instrs, target as int) as BlockId,
                else_block: (b + 1) as BlockId,
            },
            Instruction::JumpIfNot { cond, target } => t == Terminator::Branch {
                cond,
                then_block: (b + 1) as BlockId,
                else_block: block_of(instrs, target as int) as BlockId,
            },
            Instruction::Return { src } => t == Terminator::Return { src },
            Instruction::MatchEntropy {
                target,
                valid_target,
                decayed_target,
                pending_target,
                consumed_target,
            } => t == Terminator::MatchEntropy {
                target,
                valid_block: map_target(instrs, valid_target),
                decayed_block: map_target(instrs, decayed_target),
                pending_block: map_target(instrs, pending_target),
                consumed_block: map_target(instrs, consumed_target),
            },
            Instruction::Select { max_ms, cases, timeout_target } => match t {
                Terminator::Select { max_ms: m, cases: cs, timeout_block } => m == max_ms && cs@
                    == cases@.map_values(|c: IrSelectCase| map_case(instrs, c)) && timeout_block
                    == map_target(instrs, timeout_target),
                _ => false,
            },
            _ => if e < instrs.len() {
                t == Terminator::Jump { target: (b + 1) as BlockId }
            } else {
                t == Terminator::Return { src: None }
            },
        }
    }
}

/// Block `b` of the graph built from `instrs` is as the leaders cut it.
pub open spec fn block_built(instrs: Seq<Instruction>, b: int, blk: BasicBlock) -> bool {
    &&& blk.id == b
    &&& blk.instructions@.len() == body_len(instrs, b)
    &&& forall|k: int|
        0 <= k < body_len(instrs, b) ==> same_instr(
            #[trigger] blk.instructions@[k],
            instrs[block_start(instrs, b) + k],
        )
    &&& terminator_of(instrs, b, blk.terminator)
}

/// No relativistic block's end index overflows.
pub open spec fn pc_sums_fit(instrs: Seq<Instruction>) -> bool {
    forall|i: int|
        0 <= i < instrs.len() ==> match #[trigger] instrs[i] {
            Instruction::RelativisticBlock { block_pc, block_len, .. } => block_pc + block_len
                <= usize::MAX,
            _ => true,
        }
}

/// Facts about the leader prefix below `m`: each entry is a leader below `m`,
/// the entries increase strictly, every leader below `m` is listed, and there
/// are at most `m` of them.
pub proof fn lemma_leaders_upto(instrs: Seq<Instruction>, m: int)
    ensures
        leaders_upto(instrs, m).len() <= if m < 0 { 0 } else { m },
        forall|j: int|
            0 <= j < leaders_upto(instrs, m).len() ==> 0 <= #[trigger] leaders_upto(instrs, m)[j]
                < m && is_leader(instrs, leaders_upto(instrs, m)[j]),
        forall|i: int, j: int|
            0 <= i < j < leaders_upto(instrs, m).len() ==> #[trigger] leaders_upto(instrs, m)[i]
                < #[trigger] leaders_upto(instrs, m)[j],
        forall|p: int|
            0 <= p < m && is_leader(instrs, p) ==> #[trigger] leaders_upto(instrs, m).contains(p),
    decreases m,
{
    if m > 0 {
        lemma_leaders_upto(instrs, m - 1);
        let prev = leaders_upto(instrs, m - 1);
        if is_leader(instrs, m - 1) {
            assert forall|p: int| 0 <= p < m && is_leader(instrs, p) implies
                #[trigger] leaders_upto(instrs, m).contains(p) by {
                if p < m - 1 {
                    assert(prev.contains(p));
                    let j = choose|j: int| 0 <= j < prev.len() && prev[j] == p;
                    assert(leaders_upto(instrs, m)[j] == p);
                } else {
                    assert(leaders_upto(instrs, m)[prev.len() as int] == p);
                }
            }
        }
    }
}

/// Beyond the end of the list no index is a leader, so the prefix stops growing.
pub proof fn lemma_leaders_upto_past_end(instrs: Seq<Instruction>, m: int)
    requires
        m >= instrs.len() + 1,
    ensures
        leaders_upto(instrs, m) == leaders(instrs),
    decreases m,
{
    if m > instrs.len() + 1 {
        lemma_leaders_upto_past_end(instrs, m - 1);
    }
}

/// The indices that the instruction at `idx` marks as block starts.
fn leader_marks_of(instr: &Instruction, idx: usize) -> (ps: Vec<usize>)
    requires
        idx < usize::MAX,
        match *instr {
            Instruction::RelativisticBlock { block_pc, block_len, .. } => block_pc + block_len
                <= usize::MAX,
            _ => true,
        },
    ensures
        forall|p: int|
            (exists|k: int| 0 <= k < ps@.len() && #[trigger] ps@[k] == p) <==> leader_marks(
                *instr,
                idx as int,
                p,
            ),
{
    let mut ps: Vec<usize> = Vec::new();
    match instr {
        Instruction::Jump { target } => {
            ps.push(*target);
            ps.push(idx + 1);
            proof {
                assert forall|p: int|
                    (exists|k: int| 0 <= k < ps@.len() && #[trigger] ps@[k] == p) <==> leader_marks(
                        *instr,
                        idx as int,
                        p,
                    ) by {
                    assert(leader_marks(*instr, idx as int, p) == (p == *target as int || p == idx + 1));
                    if leader_marks(*instr, idx as int, p) {
                        assert(ps@[0] == p || ps@[1] == p || ps@[2] == p || ps@[3] == p || ps@[4] == p);
                    }
                    if exists|k: int| 0 <= k < ps@.len() && #[trigger] ps@[k] == p {
                        let k = choose|k: int| 0 <= k < ps@.len() && #[trigger] ps@[k] == p;
                        assert(k == 0 || k == 1 || k == 2 || k == 3 || k == 4);
                    }
                }
            }
        },
        Instruction::JumpIf { target, .. } => {
            ps.push(*target);
            ps.push(idx + 1);
            proof {
                assert forall|p: int|
                    (exists|k: int| 0 <= k < ps@.len() && #[trigger] ps@[k] == p) <==> leader_marks(
                        *instr,
                        idx as int,
                        p,
                    ) by {
                    assert(leader_marks(*instr, idx as int, p) == (p == *target as int || p == idx + 1));
                    if leader_marks(*instr, idx as int, p) {
                        assert(ps@[0] == p || ps@[1] == p || ps@[2] == p || ps@[3] == p || ps@[4] == p);
                    }
                    if exists|k: int| 0 <= k < ps@.len() && #[trigger] ps@[k] == p {
                        let k = choose|k: int| 0 <= k < ps@.len() && #[trigger] ps@[k] == p;
                        assert(k == 0 || k == 1 || k == 2 || k == 3 || k == 4);
                    }
                }
            }
        },
        Instruction::JumpIfNot { target, .. } => {
            ps.push(*target);
            ps.push(idx + 1);
            proof {
                assert forall|p: int|
                    (exists|k: int| 0 <= k < ps@.len() && #[trigger] ps@[k] == p) <==> leader_marks(
                        *instr,
                        idx as int,
                        p,
                    ) by {
                    assert(leader_marks(*instr, idx as int, p) == (p == *target as int || p == idx + 1));
                    if leader_marks(*instr, idx as int, p) {
                        assert(ps@[0] == p || ps@[1] == p || ps@[2] == p || ps@[3] == p || ps@[4] == p);
                    }
                    if exists|k: int| 0 <= k < ps@.len() && #[trigger] ps@[k] == p {
                        let k = choose|k: int| 0 <= k < ps@.len() && #[trigger] ps@[k] == p;
                        assert(k == 0 || k == 1 || k == 2 || k == 3 || k == 4);
                    }
                }
            }
        },
        Instruction::Return { .. } => {
            ps.push(idx + 1);
            proof {
                assert forall|p: int|
                    (exists|k: int| 0 <= k < ps@.len() && #[trigger] ps@[k] == p) <==> leader_marks(
                        *instr,
                        idx as int,
                        p,
                    ) by {
                    assert(leader_marks(*instr, idx as int, p) == (p == idx + 1));
                    if leader_marks(*instr, idx as int, p) {
                        assert(ps@[0] == p || ps@[1] == p || ps@[2] == p || ps@[3] == p || ps@[4] == p);
                    }
                    if exists|k: int| 0 <= k < ps@.len() && #[trigger] ps@[k] == p {
                        let k = choose|k: int| 0 <= k < ps@.len() && #[trigger] ps@[k] == p;
                        assert(k == 0 || k == 1 || k == 2 || k == 3 || k == 4);
                    }
                }
            }
        },
        Instruction::MatchEntropy {
            valid_target,
            decayed_target,
            pending_target,
            consumed_target,
            ..
        } => {
            ps.push(idx + 1);
            if let Some(t) = valid_target {
                ps.push(*t);
            }
            let ghost n1 = ps@.len();
            if let Some(t) = decayed_target {
                ps.push(*t);
            }
            let ghost n2 = ps@.len();
            if let Some(t) = pending_target {
                ps.push(*t);
            }
            let ghost n3 = ps@.len();
            if let Some(t) = consumed_target {
                ps.push(*t);
            }
            proof {
                assert(ps@[0] == idx + 1);
                assert(opt_is(*valid_target, ps@[1] as int) || !(*valid_target is Some));
                assert(*valid_target is Some ==> ps@[1] == valid_target->0);
                assert(*decayed_target is Some ==> ps@[n1 as int] == decayed_target->0);
                assert(*pending_target is Some ==> ps@[n2 as int] == pending_target->0);
                assert(*consumed_target is Some ==> ps@[n3 as int] == consumed_target->0);
                assert forall|p: int|
                    (exists|k: int| 0 <= k < ps@.len() && #[trigger] ps@[k] == p) <==> leader_marks(
                        *instr,
                        idx as int,
                        p,
                    ) by {
                    if leader_marks(*instr, idx as int, p) {
                        if p == idx + 1 {
                            assert(ps@[0] == p);
                        } else if opt_is(*valid_target, p) {
                            assert(ps@[1] == p);
                        } else if opt_is(*decayed_target, p) {
                            assert(ps@[n1 as int] == p);
                        } else if opt_is(*pending_target, p) {
                            assert(ps@[n2 as int] == p);
                        } else {
                            assert(ps@[n3 as int] == p);
                        }
                    }
                    if exists|k: int| 0 <= k < ps@.len() && #[trigger] ps@[k] == p {
                        let k = choose|k: int| 0 <= k < ps@.len() && #[trigger] ps@[k] == p;
                        assert(k == 0 || k == 1 || k == 2 || k == 3 || k == 4);
                    }
                }
            }
        },
        Instruction::Select { cases, timeout_target, .. } => {
            let mut k: usize = 0;
            while k < cases.len()
                invariant
                    k <= cases@.len(),
                    ps@.len() == k,
                    forall|j: int| 0 <= j < k ==> #[trigger] ps@[j] == cases@[j].target,
                decreases cases@.len() - k,
            {
                ps.push(cases[k].target);
                k = k + 1;
            }
            if let Some(t) = timeout_target {
                ps.push(*t);
            }
            ps.push(idx + 1);
            assert forall|p: int|
                (exists|kk: int| 0 <= kk < ps@.len() && #[trigger] ps@[kk] == p) <==> leader_marks(
                    *instr,
                    idx as int,
                    p,
                ) by {
                if leader_marks(*instr, idx as int, p) {
                    if exists|j: int| 0 <= j < cases@.len() && (#[trigger] cases@[j]).target == p {
                        let j = choose|j: int| 0 <= j < cases@.len() && (#[trigger] cases@[j]).target == p;
                        assert(ps@[j] == p);
                    } else if opt_is(*timeout_target, p) {
                        assert(ps@[cases@.len() as int] == p);
                    } else {
                        assert(ps@[ps@.len() - 1] == p);
                    }
                }
                if exists|kk: int| 0 <= kk < ps@.len() && #[trigger] ps@[kk] == p {
                    let kk = choose|kk: int| 0 <= kk < ps@.len() && #[trigger] ps@[kk] == p;
                    if kk < cases@.len() {
                        assert(cases@[kk].target == p);
                    }
                }
            }
        },
        Instruction::Watchdog { recovery_jump, .. } => {
            if let Some(t) = recovery_jump {
                ps.push(*t);
            }
            ps.push(idx + 1);
            proof {
                assert forall|p: int|
                    (exists|k: int| 0 <= k < ps@.len() && #[trigger] ps@[k] == p) <==> leader_marks(
                        *instr,
                        idx as int,
                        p,
                    ) by {
                    assert(leader_marks(*instr, idx as int, p) == (opt_is(*recovery_jump, p) || p == idx + 1));
                    if leader_marks(*instr, idx as int, p) {
                        assert(ps@[0] == p || ps@[1] == p || ps@[2] == p || ps@[3] == p || ps@[4] == p);
                    }
                    if exists|k: int| 0 <= k < ps@.len() && #[trigger] ps@[k] == p {
                        let k = choose|k: int| 0 <= k < ps@.len() && #[trigger] ps@[k] == p;
                        assert(k == 0 || k == 1 || k == 2 || k == 3 || k == 4);
                    }
                }
            }
        },
        Instruction::Speculate { fallback_target, .. } => {
            ps.push(*fallback_target);
            ps.push(idx + 1);
            proof {
                assert forall|p: int|
                    (exists|k: int| 0 <= k < ps@.len() && #[trigger] ps@[k] == p) <==> leader_marks(
                        *instr,
                        idx as int,
                        p,
                    ) by {
                    assert(leader_marks(*instr, idx as int, p) == (p == *fallback_target as int || p == idx + 1));
                    if leader_marks(*instr, idx as int, p) {
                        assert(ps@[0] == p || ps@[1] == p || ps@[2] == p || ps@[3] == p || ps@[4] == p);
                    }
                    if exists|k: int| 0 <= k < ps@.len() && #[trigger] ps@[k] == p {
                        let k = choose|k: int| 0 <= k < ps@.len() && #[trigger] ps@[k] == p;
                        assert(k == 0 || k == 1 || k == 2 || k == 3 || k == 4);
                    }
                }
            }
        },
        Instruction::EndSpeculate { fallback_target, .. } => {
            ps.push(*fallback_target);
            ps.push(idx + 1);
            proof {
                assert forall|p: int|
                    (exists|k: int| 0 <= k < ps@.len() && #[trigger] ps@[k] == p) <==> leader_marks(
                        *instr,
                        idx as int,
                        p,
                    ) by {
                    assert(leader_marks(*instr, idx as int, p) == (p == *fallback_target as int || p == idx + 1));
                    if leader_marks(*instr, idx as int, p) {
                        assert(ps@[0] == p || ps@[1] == p || ps@[2] == p || ps@[3] == p || ps@[4] == p);
                    }
                    if exists|k: int| 0 <= k < ps@.len() && #[trigger] ps@[k] == p {
                        let k = choose|k: int| 0 <= k < ps@.len() && #[trigger] ps@[k] == p;
                        assert(k == 0 || k == 1 || k == 2 || k == 3 || k == 4);
                    }
                }
            }
        },
        Instruction::RelativisticBlock { block_pc, block_len, .. } => {
            ps.push(*block_pc);
            ps.push(*block_pc + *block_len);
            ps.push(idx + 1);
            proof {
                assert forall|p: int|
                    (exists|k: int| 0 <= k < ps@.len() && #[trigger] ps@[k] == p) <==> leader_marks(
                        *instr,
                        idx as int,
                        p,
                    ) by {
                    assert(leader_marks(*instr, idx as int, p) == (p == *block_pc as int || p == *block_pc + *block_len || p == idx + 1));
                    if leader_marks(*instr, idx as int, p) {
                        assert(ps@[0] == p || ps@[1] == p || ps@[2] == p || ps@[3] == p || ps@[4] == p);
                    }
                    if exists|k: int| 0 <= k < ps@.len() && #[trigger] ps@[k] == p {
                        let k = choose|k: int| 0 <= k < ps@.len() && #[trigger] ps@[k] == p;
                        assert(k == 0 || k == 1 || k == 2 || k == 3 || k == 4);
                    }
                }
            }
        },
        Instruction::Loop { .. } | Instruction::EndLoop { .. } | Instruction::LoopTick
        | Instruction::EndLoopTick | Instruction::LoopTickOn { .. } | Instruction::While { .. }
        | Instruction::EndWhile { .. } | Instruction::For { .. } | Instruction::EndFor
        | Instruction::ForStep { .. } | Instruction::EndForStep => {
            ps.push(idx);
            proof {
                assert forall|p: int|
                    (exists|k: int| 0 <= k < ps@.len() && #[trigger] ps@[k] == p) <==> leader_marks(
                        *instr,
                        idx as int,
                        p,
                    ) by {
                    assert(leader_marks(*instr, idx as int, p) == (p == idx));
                    if leader_marks(*instr, idx as int, p) {
                        assert(ps@[0] == p || ps@[1] == p || ps@[2] == p || ps@[3] == p || ps@[4] == p);
                    }
                    if exists|k: int| 0 <= k < ps@.len() && #[trigger] ps@[k] == p {
                        let k = choose|k: int| 0 <= k < ps@.len() && #[trigger] ps@[k] == p;
                        assert(k == 0 || k == 1 || k == 2 || k == 3 || k == 4);
                    }
                }
            }
        },
        _ => {},
    }
    ps
}

/// Some of the first `k` entries of `ps` is `p`.
pub open spec fn listed_in(ps: Seq<usize>, k: int, p: int) -> bool {
    exists|k2: int| 0 <= k2 < k && #[trigger] ps[k2] == p
}

/// Some instruction before index `idx` marks `p` as a block start.
pub open spec fn marked_before(instrs: Seq<Instruction>, idx: int, p: int) -> bool {
    exists|i: int| 0 <= i < idx && #[trigger] leader_marks(instrs[i], i, p)
}

/// Marks the leaders of `instrs`: `lead[p]` says whether index `p` starts a block.
fn mark_leaders(instrs: &[Instruction]) -> (lead: Vec<bool>)
    requires
        instrs@.len() < usize::MAX,
        pc_sums_fit(instrs@),
    ensures
        lead@.len() == instrs@.len() + 1,
        forall|p: int| 0 <= p <= instrs@.len() ==> lead@[p] == is_leader(instrs@, p),
{
    let n = instrs.len();
    let mut lead: Vec<bool> = Vec::new();
    let mut q: usize = 0;
    while q <= n
        invariant
            n < usize::MAX,
            q <= n + 1,
            lead@.len() == q,
            forall|j: int| 0 <= j < q ==> lead@[j] == (j == 0),
        decreases n + 1 - q,
    {
        lead.push(q == 0);
        q = q + 1;
    }
    let mut idx: usize = 0;
    while idx < n
        invariant
            n == instrs@.len(),
            n < usize::MAX,
            pc_sums_fit(instrs@),
            idx <= n,
            lead@.len() == n + 1,
            forall|p: int| 0 <= p <= n ==> lead@[p] == (p == 0 || marked_before(instrs@, idx as int, p)),
        decreases n - idx,
    {
        assert(match instrs@[idx as int] {
            Instruction::RelativisticBlock { block_pc, block_len, .. } => block_pc + block_len
                <= usize::MAX,
            _ => true,
        });
        let ps = leader_marks_of(&instrs[idx], idx);
        let ghost before = lead@;
        let mut k: usize = 0;
        while k < ps.len()
            invariant
                lead@.len() == n + 1,
                k <= ps@.len(),
                before.len() == n + 1,
                forall|p: int| 0 <= p <= n ==> #[trigger] lead@[p] == (before[p] || listed_in(ps@, k as int, p)),
            decreases ps@.len() - k,
        {
            let ghost prev = lead@;
            if ps[k] <= n {
                lead.set(ps[k], true);
            }
            proof {
                assert forall|p: int| 0 <= p <= n implies lead@[p] == (before[p] || listed_in(ps@, k + 1, p)) by {
                    assert(prev[p] == (before[p] || listed_in(ps@, k as int, p)));
                    if ps@[k as int] == p {
                        assert(lead@[p]);
                        assert(listed_in(ps@, k + 1, p));
                    } else {
                        assert(lead@[p] == prev[p]);
                        if listed_in(ps@, k + 1, p) {
                            let k2 = choose|k2: int| 0 <= k2 < k + 1 && #[trigger] ps@[k2] == p;
                            assert(k2 < k);
                            assert(listed_in(ps@, k as int, p));
                        }
                        if listed_in(ps@, k as int, p) {
                            let k2 = choose|k2: int| 0 <= k2 < k && #[trigger] ps@[k2] == p;
                            assert(ps@[k2] == p);
                            assert(listed_in(ps@, k + 1, p));
                        }
                    }
                }
            }
            let ghost kk: int = k + 1;
            k = k + 1;
            assert(k == kk);
            assert(forall|p: int| 0 <= p <= n ==> #[trigger] lead@[p] == (before[p] || listed_in(ps@, kk, p)));
        }
        proof {
            assert forall|p: int| 0 <= p <= n implies lead@[p] == (p == 0 || marked_before(instrs@, idx + 1, p)) by {
                let m = leader_marks(instrs@[idx as int], idx as int, p);
                assert(m == listed_in(ps@, ps@.len() as int, p));
                assert(k == ps@.len());
                assert(lead@[p] == (before[p] || listed_in(ps@, k as int, p)));
                assert(lead@[p] == (before[p] || m));
                if m {
                    assert(leader_marks(instrs@[idx as int], idx as int, p));
                }
                if exists|i: int| 0 <= i < idx + 1 && #[trigger] leader_marks(instrs@[i], i, p) {
                    let i = choose|i: int| 0 <= i < idx + 1 && #[trigger] leader_marks(instrs@[i], i, p);
                    if i < idx {
                        assert(leader_marks(instrs@[i], i, p));
                    } else {
                        assert(m);
                    }
                }
                if exists|i: int| 0 <= i < idx && #[trigger] leader_marks(instrs@[i], i, p) {
                    let i = choose|i: int| 0 <= i < idx && #[trigger] leader_marks(instrs@[i], i, p);
                    assert(leader_marks(instrs@[i], i, p));
                }
            }
        }
        idx = idx + 1;
    }
    lead
}

/// The leaders in increasing order, and for every index up to the list's length
/// the block that holds it.
fn number_blocks(instrs: &[Instruction], lead: &Vec<bool>) -> (r: (Vec<usize>, Vec<BlockId>))
    requires
        instrs@.len() < u32::MAX,
        lead@.len() == instrs@.len() + 1,
        forall|p: int| 0 <= p <= instrs@.len() ==> lead@[p] == is_leader(instrs@, p),
    ensures
        r.0@.map_values(|x: usize| x as int) == leaders(instrs@),
        r.1@.len() == instrs@.len() + 1,
        forall|p: int| 0 <= p <= instrs@.len() ==> r.1@[p] == block_of(instrs@, p),
{
    let n = instrs.len();
    let mut ls: Vec<usize> = Vec::new();
    let mut bi: Vec<BlockId> = Vec::new();
    let mut p: usize = 0;
    while p <= n
        invariant
            n == instrs@.len(),
            n < u32::MAX,
            p <= n + 1,
            lead@.len() == n + 1,
            forall|q: int| 0 <= q <= n ==> lead@[q] == is_leader(instrs@, q),
            ls@.map_values(|x: usize| x as int) == leaders_upto(instrs@, p as int),
            bi@.len() == p,
            forall|q: int| 0 <= q < p ==> bi@[q] == block_of(instrs@, q),
        decreases n + 1 - p,
    {
        proof {
            lemma_leaders_upto(instrs@, p as int + 1);
        }
        if lead[p] {
            ls.push(p);
            assert(ls@.map_values(|x: usize| x as int) =~= leaders_upto(instrs@, p as int + 1));
        } else {
            assert(ls@.map_values(|x: usize| x as int) =~= leaders_upto(instrs@, p as int + 1));
        }
        assert(is_leader(instrs@, 0));
        assert(leaders_upto(instrs@, p as int + 1).contains(0));
        assert(ls@.len() >= 1);
        bi.push((ls.len() - 1) as BlockId);
        p = p + 1;
    }
    (ls, bi)
}

/// The block that holds instruction index `pc`; targets past the end of the
/// list fall into the last block.
fn lookup_block(bi: &Vec<BlockId>, nblocks: usize, pc: usize, Ghost(instrs): Ghost<Seq<Instruction>>) -> (r: BlockId)
    requires
        bi@.len() == instrs.len() + 1,
        forall|p: int| 0 <= p <= instrs.len() ==> bi@[p] == block_of(instrs, p),
        nblocks == leaders(instrs).len(),
        1 <= nblocks,
    ensures
        r == block_of(instrs, pc as int),
{
    if pc < bi.len() {
        bi[pc]
    } else {
        proof {
            lemma_leaders_upto_past_end(instrs, pc as int + 1);
            lemma_leaders_upto(instrs, instrs.len() + 1 as int);
        }
        assert(bi@[instrs.len() as int] == block_of(instrs, instrs.len() as int));
        proof {
            lemma_leaders_upto_past_end(instrs, instrs.len() + 1 as int);
        }
        (nblocks - 1) as BlockId
    }
}

fn lookup_target(bi: &Vec<BlockId>, nblocks: usize, t: Option<usize>, Ghost(instrs): Ghost<Seq<Instruction>>) -> (r: Option<BlockId>)
    requires
        bi@.len() == instrs.len() + 1,
        forall|p: int| 0 <= p <= instrs.len() ==> bi@[p] == block_of(instrs, p),
        nblocks == leaders(instrs).len(),
        1 <= nblocks,
    ensures
        r == map_target(instrs, t),
{
    match t {
        Some(pc) => Some(lookup_block(bi, nblocks, pc, Ghost(instrs))),
        None => None,
    }
}

fn map_select_cases(cases: &Vec<IrSelectCase>, bi: &Vec<BlockId>, nblocks: usize, Ghost(instrs): Ghost<Seq<Instruction>>) -> (r: Vec<SelectCase>)
    requires
        bi@.len() == instrs.len() + 1,
        forall|p: int| 0 <= p <= instrs.len() ==> bi@[p] == block_of(instrs, p),
        nblocks == leaders(instrs).len(),
        1 <= nblocks,
    ensures
        r@ == cases@.map_values(|c: IrSelectCase| map_case(instrs, c)),
{
    let mut out: Vec<SelectCase> = Vec::new();
    let mut k: usize = 0;
    while k < cases.len()
        invariant
            k <= cases@.len(),
            bi@.len() == instrs.len() + 1,
            forall|p: int| 0 <= p <= instrs.len() ==> bi@[p] == block_of(instrs, p),
            nblocks == leaders(instrs).len(),
            1 <= nblocks,
            out@ == cases@.subrange(0, k as int).map_values(|c: IrSelectCase| map_case(instrs, c)),
        decreases cases@.len() - k,
    {
        let c = &cases[k];
        let tb = lookup_block(bi, nblocks, c.target, Ghost(instrs));
        out.push(SelectCase { chan_id: c.chan_id.clone(), dest: c.dest, target_block: tb });
        k = k + 1;
        assert(out@ =~= cases@.subrange(0, k as int).map_values(|c: IrSelectCase| map_case(instrs, c)));
    }
    assert(cases@.subrange(0, cases@.len() as int) =~= cases@);
    out
}

fn is_control_instr(i: &Instruction) -> (b: bool)
    ensures
        b == is_control(*i),
{
    match i {
        Instruction::Jump { .. } | Instruction::JumpIf { .. } | Instruction::JumpIfNot { .. }
        | Instruction::Return { .. } | Instruction::MatchEntropy { .. } | Instruction::Select { .. } => true,
        _ => false,
    }
}

/// Builds block `b`, which spans `start..end` of `instrs`.
fn build_block(
    instrs: &[Instruction],
    b: usize,
    start: usize,
    end: usize,
    bi: &Vec<BlockId>,
    nblocks: usize,
) -> (blk: BasicBlock)
    requires
        instrs@.len() < u32::MAX,
        b < nblocks,
        nblocks == leaders(instrs@).len(),
        start == block_start(instrs@, b as int),
        end == block_end(instrs@, b as int),
        end <= instrs@.len(),
        start < instrs@.len() ==> start < end,
        nblocks <= instrs@.len() + 1,
        bi@.len() == instrs@.len() + 1,
        forall|p: int| 0 <= p <= instrs@.len() ==> bi@[p] == block_of(instrs@, p),
    ensures
        block_built(instrs@, b as int, blk),
{
    let n = instrs.len();
    let ghost s = instrs@;
    if start < n {
        let last = &instrs[end - 1];
        let body_end = if is_control_instr(last) { end - 1 } else { end };
        let mut body: Vec<Instruction> = Vec::new();
        let mut k: usize = start;
        while k < body_end
            invariant
                start <= k <= body_end,
                body_end <= end <= s.len(),
                s == instrs@,
                body@.len() == k - start,
                forall|j: int| 0 <= j < k - start ==> same_instr(#[trigger] body@[j], s[start + j]),
            decreases body_end - k,
        {
            body.push(instrs[k].duplicate());
            k = k + 1;
        }
        let term = match last {
            Instruction::Jump { target } => Terminator::Jump {
                target: lookup_block(bi, nblocks, *target, Ghost(s)),
            },
            Instruction::JumpIf { cond, target } => Terminator::Branch {
                cond: *cond,
                then_block: lookup_block(bi, nblocks, *target, Ghost(s)),
                else_block: (b + 1) as BlockId,
            },
            Instruction::JumpIfNot { cond, target } => Terminator::Branch {
                cond: *cond,
                then_block: (b + 1) as BlockId,
                else_block: lookup_block(bi, nblocks, *target, Ghost(s)),
            },
            Instruction::Return { src } => Terminator::Return { src: *src },
            Instruction::MatchEntropy {
                target,
                valid_target,
                decayed_target,
                pending_target,
                consumed_target,
            } => Terminator::MatchEntropy {
                target: *target,
                valid_block: lookup_target(bi, nblocks, *valid_target, Ghost(s)),
                decayed_block: lookup_target(bi, nblocks, *decayed_target, Ghost(s)),
                pending_block: lookup_target(bi, nblocks, *pending_target, Ghost(s)),
                consumed_block: lookup_target(bi, nblocks, *consumed_target, Ghost(s)),
            },
            Instruction::Select { max_ms, cases, timeout_target } => Terminator::Select {
                max_ms: *max_ms,
                cases: map_select_cases(cases, bi, nblocks, Ghost(s)),
                timeout_block: lookup_target(bi, nblocks, *timeout_target, Ghost(s)),
            },
            _ => {
                if end < n {
                    Terminator::Jump { target: (b + 1) as BlockId }
                } else {
                    Terminator::Return { src: None }
                }
            },
        };
        BasicBlock { id: b as BlockId, instructions: body, terminator: term }
    } else {
        BasicBlock {
            id: b as BlockId,
            instructions: Vec::new(),
            terminator: Terminator::Return { src: None },
        }
    }
}

impl CFG {
    /// Splits a flat instruction list into basic blocks. A block starts at
    /// index 0, at every jump, branch, select, entropy-match, watchdog,
    /// speculation and relativistic-block target, after every control
    /// instruction, and at every loop marker. Blocks are numbered in order of
    /// their start; a block whose last instruction transfers control turns it
    /// into its terminator, any other falls through to the next block, and the
    /// last block returns.
    pub fn from_flat_instructions(instructions: &[Instruction]) -> (cfg: Self)
        requires
            instructions@.len() < u32::MAX,
            pc_sums_fit(instructions@),
        ensures
            cfg.entry_block == 0,
            cfg.blocks.wf(),
            instructions@.len() == 0 ==> cfg.blocks.entries@.len() == 0
                && cfg.original_pc_to_block_id@.len() == 0,
            instructions@.len() > 0 ==> {
                &&& cfg.blocks.entries@.len() == leaders(instructions@).len()
                &&& forall|b: int|
                    0 <= b < leaders(instructions@).len() ==> (#[trigger] cfg.blocks.entries@[b]).0 == b
                        && block_built(instructions@, b, cfg.blocks.entries@[b].1)
                &&& cfg.original_pc_to_block_id@.len() == instructions@.len() + 1
                &&& forall|p: int|
                    0 <= p <= instructions@.len() ==> #[trigger] cfg.original_pc_to_block_id@[p]
                        == block_of(
                        instructions@,
                        if p < instructions@.len() {
                            p
                        } else {
                            instructions@.len() - 1
                        },
                    )
            },
    {
        let n = instructions.len();
        if n == 0 {
            return CFG {
                entry_block: 0,
                blocks: BlockMap::new(),
                original_pc_to_block_id: Vec::new(),
            };
        }
        let ghost s = instructions@;
        let lead = mark_leaders(instructions);
        let (ls, bi) = number_blocks(instructions, &lead);
        proof {
            lemma_leaders_upto(s, n + 1);
            assert(is_leader(s, 0));
            assert(leaders(s).contains(0));
        }
        let nb = ls.len();
        assert(ls@.map_values(|x: usize| x as int).len() == nb);
        let mut blocks: BlockMap<BasicBlock> = BlockMap::new();
        let mut b: usize = 0;
        while b < nb
            invariant
                n == s.len(),
                s == instructions@,
                n < u32::MAX,
                nb == leaders(s).len(),
                1 <= nb <= n + 1,
                ls@.map_values(|x: usize| x as int) == leaders(s),
                forall|j: int| 0 <= j < leaders(s).len() ==> 0 <= #[trigger] leaders(s)[j] < n + 1,
                forall|i: int, j: int| 0 <= i < j < leaders(s).len() ==> #[trigger] leaders(s)[i] < #[trigger] leaders(s)[j],
                bi@.len() == n + 1,
                forall|p: int| 0 <= p <= n ==> bi@[p] == block_of(s, p),
                b <= nb,
                blocks.wf(),
                blocks.entries@.len() == b,
                forall|j: int| 0 <= j < b ==> (#[trigger] blocks.entries@[j]).0 == j && block_built(s, j, blocks.entries@[j].1),
            decreases nb - b,
        {
            let start = ls[b];
            assert(ls@.map_values(|x: usize| x as int)[b as int] == ls@[b as int] as int);
            let end = if b + 1 < nb {
                assert(ls@.map_values(|x: usize| x as int)[b + 1] == ls@[b + 1] as int);
                ls[b + 1]
            } else {
                n
            };
            let blk = build_block(instructions, b, start, end, &bi, nb);
            blocks.push_last(b as BlockId, blk);
            b = b + 1;
        }
        let mut pcmap: Vec<BlockId> = Vec::new();
        let mut p: usize = 0;
        while p <= n
            invariant
                n == s.len(),
                0 < n < u32::MAX,
                nb == leaders(s).len(),
                1 <= nb,
                bi@.len() == n + 1,
                forall|q: int| 0 <= q <= n ==> bi@[q] == block_of(s, q),
                p <= n + 1,
                pcmap@.len() == p,
                forall|q: int| 0 <= q < p ==> #[trigger] pcmap@[q] == block_of(s, if q < n { q } else { n - 1 }),
            decreases n + 1 - p,
        {
            let q = if p < n { p } else { n - 1 };
            pcmap.push(lookup_block(&bi, nb, q, Ghost(s)));
            p = p + 1;
        }
        CFG { entry_block: 0, blocks, original_pc_to_block_id: pcmap }
    }
}

} // verus!
