//! Single assignment: what each SSA instruction, phi node and block
//! defines, and why renaming never defines a version twice.

use vstd::prelude::*;
use crate::ir::IrSelectCase;
use crate::instruction::Instruction;
use crate::cfg::Terminator;
use crate::ssa::{SsaReg, SsaBasicBlock, SsaTerminator, SsaPhiNode, SsaSelectCase, SsaCFG};
use crate::ssa::instruction::SsaInstruction;
use crate::ssa::rename::{VersionState, count_of, fresh_reg, define, define_cases, renamed, version_room, defs_of};

verus! {

/// The register versions an SSA instruction defines, in order.
pub open spec fn ssa_instr_defs(s: SsaInstruction) -> Seq<SsaReg> {
    match s {
        SsaInstruction::BinaryOp { dest, .. } => seq![dest],
        SsaInstruction::UnaryOp { dest, .. } => seq![dest],
        SsaInstruction::LoadInt { dest, .. } => seq![dest],
        SsaInstruction::LoadFloat { dest, .. } => seq![dest],
        SsaInstruction::LoadBool { dest, .. } => seq![dest],
        SsaInstruction::LoadString { dest, .. } => seq![dest],
        SsaInstruction::LoadNull { dest } => seq![dest],
        SsaInstruction::ConstInt { dest, .. } => seq![dest],
        SsaInstruction::ConstFloat { dest, .. } => seq![dest],
        SsaInstruction::ConstBool { dest, .. } => seq![dest],
        SsaInstruction::ConstString { dest, .. } => seq![dest],
        SsaInstruction::ConstNull { dest } => seq![dest],
        SsaInstruction::Move { dest, .. } => seq![dest],
        SsaInstruction::Clone { dest, .. } => seq![dest],
        SsaInstruction::StrBytes { dest, .. } => seq![dest],
        SsaInstruction::ToStr { dest, .. } => seq![dest],
        SsaInstruction::ArrayLen { dest, .. } => seq![dest],
        SsaInstruction::Call { dest, .. } => seq![dest],
        SsaInstruction::DynamicCall { dest, .. } => seq![dest],
        SsaInstruction::TypeAssert { dest, .. } => seq![dest],
        SsaInstruction::TypeCast { dest, .. } => seq![dest],
        SsaInstruction::StructLit { dest, .. } => seq![dest],
        SsaInstruction::TopologyLit { dest, .. } => seq![dest],
        SsaInstruction::ArrayLit { dest, .. } => seq![dest],
        SsaInstruction::ArrayRepeat { dest, .. } => seq![dest],
        SsaInstruction::ArraySlice { dest, .. } => seq![dest],
        SsaInstruction::FieldAccess { dest, .. } => seq![dest],
        SsaInstruction::IndexAccess { dest, .. } => seq![dest],
        SsaInstruction::ChanRecv { dest, .. } => seq![dest],
        SsaInstruction::ConditionalSelect { dest, .. } => seq![dest],
        SsaInstruction::Defer { dest, .. } => seq![dest],
        SsaInstruction::Syscall { dest, .. } => seq![dest],
        SsaInstruction::ArenaIntrospect { dest, .. } => seq![dest],
        SsaInstruction::CapabilityCheck { dest, .. } => seq![dest],
        SsaInstruction::Lease { target_reg, .. } => seq![target_reg],
        SsaInstruction::FieldUpdate { target, .. } => seq![target],
        SsaInstruction::IndexFieldUpdate { target, .. } => seq![target],
        SsaInstruction::SplitMap { item_reg, .. } => seq![item_reg],
        SsaInstruction::TryTypeAssert { dest, success, .. } => seq![dest, success],
        SsaInstruction::TryEnumVariant { dest, success, .. } => seq![dest, success],
        SsaInstruction::For { dest_cond, item_reg, .. } => seq![dest_cond, item_reg],
        SsaInstruction::ForStep { dest_cond, item_reg, .. } => seq![dest_cond, item_reg],
        SsaInstruction::Select { cases, .. } => cases@.map_values(|c: SsaSelectCase| c.dest),
        _ => Seq::empty(),
    }
}

/// The register versions a terminator defines.
pub open spec fn ssa_term_defs(t: SsaTerminator) -> Seq<SsaReg> {
    match t {
        SsaTerminator::Select { cases, .. } => cases@.map_values(|c: SsaSelectCase| c.dest),
        _ => Seq::empty(),
    }
}

/// What the first `k` instructions of `is` define, in order.
pub open spec fn instrs_defs(is: Seq<SsaInstruction>, k: int) -> Seq<SsaReg>
    decreases k,
{
    if k <= 0 {
        Seq::empty()
    } else {
        instrs_defs(is, k - 1) + ssa_instr_defs(is[k - 1])
    }
}

/// The results of the phi nodes, in order.
pub open spec fn phi_defs(ps: Seq<SsaPhiNode>) -> Seq<SsaReg> {
    ps.map_values(|p: SsaPhiNode| p.dest)
}

/// Everything a block defines: its phi nodes, its instructions, its
/// terminator.
pub open spec fn block_defs_of(b: SsaBasicBlock) -> Seq<SsaReg> {
    phi_defs(b.phi_nodes@) + instrs_defs(b.instructions@, b.instructions@.len() as int) + ssa_term_defs(b.terminator)
}

/// No two places of `ds` hold the same version of the same register.
pub open spec fn all_distinct(ds: Seq<SsaReg>) -> bool {
    forall|i: int, j: int| 0 <= i < ds.len() && 0 <= j < ds.len() && i != j ==> #[trigger] ds[i] != #[trigger] ds[j]
}

/// Every version in `ds` was handed out between states `a` and `b`.
pub open spec fn fresh_in(ds: Seq<SsaReg>, a: VersionState, b: VersionState) -> bool {
    forall|i: int| 0 <= i < ds.len() ==> count_of(a, (#[trigger] ds[i]).reg) < ds[i].version <= count_of(b, ds[i].reg)
}

/// No counter goes down from `a` to `b`.
pub open spec fn grows(a: VersionState, b: VersionState) -> bool {
    forall|r: u32| #[trigger] count_of(a, r) <= count_of(b, r)
}

/// A graph in single assignment form: no version of a register is defined
/// in two places, across all blocks.
pub open spec fn single_assignment(s: SsaCFG) -> bool {
    let e = s.blocks.entries@;
    forall|x: int, i: int, y: int, j: int|
        0 <= x < e.len() && 0 <= y < e.len() && 0 <= i < block_defs_of(e[x].1).len() && 0 <= j < block_defs_of(e[y].1).len()
        && (x != y || i != j) ==> #[trigger] block_defs_of(e[x].1)[i] != #[trigger] block_defs_of(e[y].1)[j]
}

pub proof fn lemma_grows_trans(a: VersionState, b: VersionState, c: VersionState)
    requires
        grows(a, b),
        grows(b, c),
    ensures
        grows(a, c),
{
    assert forall|r: u32| #[trigger] count_of(a, r) <= count_of(c, r) by {
        assert(count_of(a, r) <= count_of(b, r));
    }
}

/// Two runs of fresh, distinct versions, one after the other, make one.
pub proof fn lemma_fresh_concat(a: Seq<SsaReg>, b: Seq<SsaReg>, s0: VersionState, s1: VersionState, s2: VersionState)
    requires
        fresh_in(a, s0, s1),
        fresh_in(b, s1, s2),
        all_distinct(a),
        all_distinct(b),
        grows(s1, s2),
        grows(s0, s1),
    ensures
        fresh_in(a + b, s0, s2),
        all_distinct(a + b),
{
    let c = a + b;
    assert forall|i: int| 0 <= i < c.len() implies count_of(s0, (#[trigger] c[i]).reg) < c[i].version <= count_of(s2, c[i].reg) by {
        if i < a.len() {
            assert(c[i] == a[i]);
            assert(count_of(s1, a[i].reg) <= count_of(s2, a[i].reg));
        } else {
            assert(c[i] == b[i - a.len()]);
            assert(count_of(s0, b[i - a.len()].reg) <= count_of(s1, b[i - a.len()].reg));
        }
    }
    assert forall|i: int, j: int| 0 <= i < c.len() && 0 <= j < c.len() && i != j implies #[trigger] c[i] != #[trigger] c[j] by {
        if i < a.len() && j < a.len() {
            assert(c[i] == a[i] && c[j] == a[j]);
        } else if i >= a.len() && j >= a.len() {
            assert(c[i] == b[i - a.len()] && c[j] == b[j - a.len()]);
        } else if i < a.len() {
            assert(c[i] == a[i] && c[j] == b[j - a.len()]);
            assert(a[i].version <= count_of(s1, a[i].reg));
        } else {
            assert(c[j] == a[j] && c[i] == b[i - a.len()]);
            assert(a[j].version <= count_of(s1, a[j].reg));
        }
    }
}

/// One definition hands out the next version of its register.
pub proof fn lemma_define_fresh(st: VersionState, r: u32)
    requires
        count_of(st, r) < u32::MAX,
    ensures
        fresh_in(seq![fresh_reg(st, r)], st, define(st, r)),
        all_distinct(seq![fresh_reg(st, r)]),
        grows(st, define(st, r)),
{
    assert(seq![fresh_reg(st, r)][0] == fresh_reg(st, r));
    assert forall|q: u32| #[trigger] count_of(st, q) <= count_of(define(st, r), q) by {}
}

/// Defining the results of select arms in order hands out fresh, distinct
/// versions.
pub proof fn lemma_define_cases_fresh(st: VersionState, cs: Seq<IrSelectCase>)
    requires
        version_room(st, cs.len() as int),
    ensures
        fresh_in(define_cases(st, cs).1.map_values(|c: SsaSelectCase| c.dest), st, define_cases(st, cs).0),
        all_distinct(define_cases(st, cs).1.map_values(|c: SsaSelectCase| c.dest)),
        grows(st, define_cases(st, cs).0),
    decreases cs.len(),
{
    if cs.len() == 0 {
        assert(define_cases(st, cs).1.map_values(|c: SsaSelectCase| c.dest) =~= Seq::<SsaReg>::empty());
        assert forall|q: u32| #[trigger] count_of(st, q) <= count_of(define_cases(st, cs).0, q) by {}
    } else {
        let prev = define_cases(st, cs.drop_last());
        lemma_define_cases_fresh(st, cs.drop_last());
        crate::ssa::rename::lemma_define_cases_counts(st, cs.drop_last());
        let r = cs.last().dest.0;
        assert(count_of(prev.0, r) <= count_of(st, r) + cs.len() - 1);
        assert(count_of(st, r) + cs.len() <= u32::MAX);
        lemma_define_fresh(prev.0, r);
        let a = prev.1.map_values(|c: SsaSelectCase| c.dest);
        let b = seq![fresh_reg(prev.0, r)];
        lemma_fresh_concat(a, b, st, prev.0, define(prev.0, r));
        assert(define_cases(st, cs).1.map_values(|c: SsaSelectCase| c.dest) =~= a + b);
        lemma_grows_trans(st, prev.0, define(prev.0, r));
    }
}

/// Renaming an instruction hands out fresh, distinct versions for what it
/// defines.
#[verifier::rlimit(80)]
pub proof fn lemma_renamed_fresh(st0: VersionState, i: Instruction, s: SsaInstruction, st1: VersionState)
    requires
        renamed(st0, i, s, st1),
        version_room(st0, defs_of(i)),
    ensures
        fresh_in(ssa_instr_defs(s), st0, st1),
        all_distinct(ssa_instr_defs(s)),
        grows(st0, st1),
{
    match i {
        Instruction::Select { cases, .. } => {
            lemma_define_cases_fresh(st0, cases@);
        },
        Instruction::TryTypeAssert { dest, success, .. } => {
            lemma_define_fresh(st0, dest.0);
            crate::ssa::rename::lemma_define_counts(st0, dest.0, success.0);
            assert(count_of(st0, success.0) + 2 <= u32::MAX);
            assert(count_of(define(st0, dest.0), success.0) < u32::MAX);
            lemma_define_fresh(define(st0, dest.0), success.0);
            lemma_fresh_concat(seq![fresh_reg(st0, dest.0)], seq![fresh_reg(define(st0, dest.0), success.0)], st0, define(st0, dest.0), st1);
            assert(ssa_instr_defs(s) =~= seq![fresh_reg(st0, dest.0)] + seq![fresh_reg(define(st0, dest.0), success.0)]);
            lemma_grows_trans(st0, define(st0, dest.0), st1);
        },
        Instruction::For { dest_cond, item_reg, .. } => {
            lemma_define_fresh(st0, dest_cond.0);
            crate::ssa::rename::lemma_define_counts(st0, dest_cond.0, item_reg.0);
            assert(count_of(st0, item_reg.0) + 2 <= u32::MAX);
            assert(count_of(define(st0, dest_cond.0), item_reg.0) < u32::MAX);
            lemma_define_fresh(define(st0, dest_cond.0), item_reg.0);
            lemma_fresh_concat(seq![fresh_reg(st0, dest_cond.0)], seq![fresh_reg(define(st0, dest_cond.0), item_reg.0)], st0, define(st0, dest_cond.0), st1);
            assert(ssa_instr_defs(s) =~= seq![fresh_reg(st0, dest_cond.0)] + seq![fresh_reg(define(st0, dest_cond.0), item_reg.0)]);
            lemma_grows_trans(st0, define(st0, dest_cond.0), st1);
        },
        Instruction::ForStep { dest_cond, item_reg, .. } => {
            lemma_define_fresh(st0, dest_cond.0);
            crate::ssa::rename::lemma_define_counts(st0, dest_cond.0, item_reg.0);
            assert(count_of(st0, item_reg.0) + 2 <= u32::MAX);
            assert(count_of(define(st0, dest_cond.0), item_reg.0) < u32::MAX);
            lemma_define_fresh(define(st0, dest_cond.0), item_reg.0);
            lemma_fresh_concat(seq![fresh_reg(st0, dest_cond.0)], seq![fresh_reg(define(st0, dest_cond.0), item_reg.0)], st0, define(st0, dest_cond.0), st1);
            assert(ssa_instr_defs(s) =~= seq![fresh_reg(st0, dest_cond.0)] + seq![fresh_reg(define(st0, dest_cond.0), item_reg.0)]);
            lemma_grows_trans(st0, define(st0, dest_cond.0), st1);
        },
        _ => {
            lemma_renamed_single(st0, i, s, st1);
        },
    }
}

/// The instructions that define one register, or none.
pub open spec fn defines_at_most_one(i: Instruction) -> bool {
    !(i is Select) && !(i is TryTypeAssert) && !(i is For) && !(i is ForStep)
}

#[verifier::rlimit(80)]
proof fn lemma_renamed_single(st0: VersionState, i: Instruction, s: SsaInstruction, st1: VersionState)
    requires
        renamed(st0, i, s, st1),
        version_room(st0, defs_of(i)),
        defines_at_most_one(i),
    ensures
        fresh_in(ssa_instr_defs(s), st0, st1),
        all_distinct(ssa_instr_defs(s)),
        grows(st0, st1),
{
    if ssa_instr_defs(s).len() == 0 {
        assert(st1 == st0);
        assert forall|q: u32| #[trigger] count_of(st0, q) <= count_of(st1, q) by {}
    } else {
        let d = ssa_instr_defs(s)[0];
        assert(ssa_instr_defs(s) =~= seq![d]);
        assert(d == fresh_reg(st0, d.reg) && st1 == define(st0, d.reg));
        lemma_define_fresh(st0, d.reg);
    }
}

/// Every version defined in the filled blocks of `out` is at most the
/// counter of its register in `st`.
pub open spec fn defs_counted(out: Seq<Option<SsaBasicBlock>>, st: VersionState) -> bool {
    forall|x: int, i: int| 0 <= x < out.len() && out[x] is Some && 0 <= i < block_defs_of(out[x].unwrap()).len()
        ==> (#[trigger] block_defs_of(out[x].unwrap())[i]).version <= count_of(st, block_defs_of(out[x].unwrap())[i].reg)
}

/// No version is defined in two places of the filled blocks of `out`.
pub open spec fn defs_unique(out: Seq<Option<SsaBasicBlock>>) -> bool {
    forall|x: int, i: int, y: int, j: int|
        0 <= x < out.len() && 0 <= y < out.len() && out[x] is Some && out[y] is Some
        && 0 <= i < block_defs_of(out[x].unwrap()).len() && 0 <= j < block_defs_of(out[y].unwrap()).len()
        && (x != y || i != j) ==> #[trigger] block_defs_of(out[x].unwrap())[i] != #[trigger] block_defs_of(out[y].unwrap())[j]
}

pub proof fn lemma_counted_grows(out: Seq<Option<SsaBasicBlock>>, st0: VersionState, st1: VersionState)
    requires
        defs_counted(out, st0),
        grows(st0, st1),
    ensures
        defs_counted(out, st1),
{
    assert forall|x: int, i: int| 0 <= x < out.len() && out[x] is Some && 0 <= i < block_defs_of(out[x].unwrap()).len()
        implies (#[trigger] block_defs_of(out[x].unwrap())[i]).version <= count_of(st1, block_defs_of(out[x].unwrap())[i].reg) by {
        assert(count_of(st0, block_defs_of(out[x].unwrap())[i].reg) <= count_of(st1, block_defs_of(out[x].unwrap())[i].reg));
    }
}

/// Filling an empty slot with a block whose definitions are fresh keeps
/// every definition counted and unique.
pub proof fn lemma_add_block(out: Seq<Option<SsaBasicBlock>>, b: int, sb: SsaBasicBlock, st0: VersionState, st1: VersionState)
    requires
        0 <= b < out.len(),
        out[b] is None,
        defs_counted(out, st0),
        defs_unique(out),
        fresh_in(block_defs_of(sb), st0, st1),
        all_distinct(block_defs_of(sb)),
        grows(st0, st1),
    ensures
        defs_counted(out.update(b, Some(sb)), st1),
        defs_unique(out.update(b, Some(sb))),
{
    let o2 = out.update(b, Some(sb));
    assert forall|x: int, i: int| 0 <= x < o2.len() && o2[x] is Some && 0 <= i < block_defs_of(o2[x].unwrap()).len()
        implies (#[trigger] block_defs_of(o2[x].unwrap())[i]).version <= count_of(st1, block_defs_of(o2[x].unwrap())[i].reg) by {
        if x != b {
            assert(o2[x] == out[x]);
            assert(count_of(st0, block_defs_of(out[x].unwrap())[i].reg) <= count_of(st1, block_defs_of(out[x].unwrap())[i].reg));
        }
    }
    assert forall|x: int, i: int, y: int, j: int|
        0 <= x < o2.len() && 0 <= y < o2.len() && o2[x] is Some && o2[y] is Some
        && 0 <= i < block_defs_of(o2[x].unwrap()).len() && 0 <= j < block_defs_of(o2[y].unwrap()).len()
        && (x != y || i != j) implies #[trigger] block_defs_of(o2[x].unwrap())[i] != #[trigger] block_defs_of(o2[y].unwrap())[j] by {
        if x == b && y == b {
        } else if x == b {
            assert(o2[y] == out[y]);
            let d = block_defs_of(out[y].unwrap())[j];
            assert(d.version <= count_of(st0, d.reg));
            assert(count_of(st0, block_defs_of(sb)[i].reg) < block_defs_of(sb)[i].version);
        } else if y == b {
            assert(o2[x] == out[x]);
            let d = block_defs_of(out[x].unwrap())[i];
            assert(d.version <= count_of(st0, d.reg));
            assert(count_of(st0, block_defs_of(sb)[j].reg) < block_defs_of(sb)[j].version);
        } else {
            assert(o2[x] == out[x] && o2[y] == out[y]);
        }
    }
}

/// What the first `k` instructions define depends on those alone.
pub proof fn lemma_instrs_defs_prefix(a: Seq<SsaInstruction>, b: Seq<SsaInstruction>, k: int)
    requires
        0 <= k <= a.len(),
        k <= b.len(),
        forall|q: int| 0 <= q < k ==> a[q] == b[q],
    ensures
        instrs_defs(a, k) == instrs_defs(b, k),
    decreases k,
{
    if k > 0 {
        lemma_instrs_defs_prefix(a, b, k - 1);
    }
}

} // verus!
