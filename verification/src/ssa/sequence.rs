//! Renaming a sequence of instructions: how the version counters and the
//! versions that reads see evolve from one instruction to the next.

use vstd::prelude::*;
use crate::ir::{Reg, IrSelectCase};
use crate::instruction::{Instruction, spec_used_regs, spec_defined_reg};
use crate::ssa::instruction::{SsaInstruction, spec_ssa_used_regs, spec_ssa_defined_reg};
use crate::ssa::rename::{VersionState, count_of, stack_of, current_version_of, read_reg, read_regs, fresh_reg, define, undefine, define_cases, renamed};
use crate::cfg::Terminator;
use crate::ssa::{SsaTerminator, SsaReg};
use crate::optimize::graph::ssa_term_succs;
use crate::optimize::dead_code::term_src_regs;
use crate::ssa::transformer::{term_targets, dest_regs_spec, undefine_all, term_renamed, term_dest_regs, ir_cases, instrs_dest_regs};

verus! {

/// The state after defining each of `rs` in turn.
pub open spec fn define_all(st: VersionState, rs: Seq<u32>) -> VersionState
    decreases rs.len(),
{
    if rs.len() == 0 {
        st
    } else {
        define(define_all(st, rs.drop_last()), rs.last())
    }
}

/// How many times `r` occurs in `rs`.
pub open spec fn occurrences(rs: Seq<u32>, r: u32) -> nat
    decreases rs.len(),
{
    if rs.len() == 0 {
        0
    } else {
        occurrences(rs.drop_last(), r) + if rs.last() == r { 1nat } else { 0nat }
    }
}

/// Every read sees the latest definition: the current version of each
/// register is the number of versions made of it.
pub open spec fn reads_latest(st: VersionState) -> bool {
    forall|r: u32| #[trigger] current_version_of(st, r) == count_of(st, r)
}

/// The registers that renaming `i` defines, in order.
pub open spec fn instr_dest_nums(i: Instruction) -> Seq<u32> {
    match i {
        Instruction::Syscall { dest, .. } => seq![dest.0],
        _ => dest_regs_spec(i).map_values(|r: Reg| r.0),
    }
}

/// The registers that renaming `is` defines, in order.
pub open spec fn instrs_dest_nums(is: Seq<Instruction>) -> Seq<u32>
    decreases is.len(),
{
    if is.len() == 0 {
        Seq::empty()
    } else {
        instrs_dest_nums(is.drop_last()) + instr_dest_nums(is.last())
    }
}

pub proof fn lemma_occurrences_concat(a: Seq<u32>, b: Seq<u32>, r: u32)
    ensures
        occurrences(a + b, r) == occurrences(a, r) + occurrences(b, r),
    decreases b.len(),
{
    if b.len() == 0 {
        assert(a + b =~= a);
    } else {
        lemma_occurrences_concat(a, b.drop_last(), r);
        assert((a + b).drop_last() =~= a + b.drop_last());
    }
}

proof fn lemma_occurrences_bound(a: Seq<u32>, r: u32)
    ensures
        occurrences(a, r) <= a.len(),
    decreases a.len(),
{
    if a.len() > 0 {
        lemma_occurrences_bound(a.drop_last(), r);
    }
}

pub proof fn lemma_define_cases_all(st: VersionState, cs: Seq<IrSelectCase>, ds: Seq<u32>)
    requires
        ds.len() == cs.len(),
        forall|j: int| 0 <= j < cs.len() ==> #[trigger] ds[j] == cs[j].dest.0,
    ensures
        define_cases(st, cs).0 == define_all(st, ds),
    decreases cs.len(),
{
    if cs.len() > 0 {
        lemma_define_cases_all(st, cs.drop_last(), ds.drop_last());
    }
}

/// Renaming an instruction defines its destination registers in order.
pub proof fn lemma_renamed_defines(st0: VersionState, i: Instruction, s: SsaInstruction, st1: VersionState)
    requires
        renamed(st0, i, s, st1),
    ensures
        st1 == define_all(st0, instr_dest_nums(i)),
{
    let rs = instr_dest_nums(i);
    match i {
        Instruction::Select { cases, .. } => {
            assert forall|j: int| 0 <= j < cases@.len() implies #[trigger] rs[j] == cases@[j].dest.0 by {}
            lemma_define_cases_all(st0, cases@, rs);
        },
        _ => {
            if rs.len() == 2 {
                let a = rs.drop_last();
                assert(a.drop_last() =~= Seq::<u32>::empty());
                assert(define_all(st0, a.drop_last()) == st0);
                assert(define_all(st0, a) == define(st0, rs[0]));
                assert(define_all(st0, rs) == define(define(st0, rs[0]), rs[1]));
            } else if rs.len() == 1 {
                assert(rs.drop_last() =~= Seq::<u32>::empty());
                assert(define_all(st0, rs.drop_last()) == st0);
                assert(define_all(st0, rs) == define(st0, rs[0]));
            } else if rs.len() == 0 {
                assert(define_all(st0, rs) == st0);
            }
        },
    }
}

proof fn lemma_define_latest(st: VersionState, r: u32)
    requires
        reads_latest(st),
        count_of(st, r) < u32::MAX,
    ensures
        reads_latest(define(st, r)),
        forall|q: u32| #[trigger] count_of(define(st, r), q) == count_of(st, q) + if q == r { 1int } else { 0int },
{
    let st1 = define(st, r);
    assert forall|q: u32| #[trigger] current_version_of(st1, q) == count_of(st1, q) by {
        if q == r {
            assert(stack_of(st1, q) == stack_of(st, r).push((count_of(st, r) + 1) as u32));
        } else {
            assert(stack_of(st1, q) == stack_of(st, q));
            assert(current_version_of(st, q) == count_of(st, q));
        }
    }
}

proof fn lemma_define_all_latest(st: VersionState, rs: Seq<u32>)
    requires
        reads_latest(st),
        forall|q: u32| #[trigger] count_of(st, q) + rs.len() <= u32::MAX,
    ensures
        reads_latest(define_all(st, rs)),
        forall|q: u32| #[trigger] count_of(define_all(st, rs), q) == count_of(st, q) + occurrences(rs, q),
    decreases rs.len(),
{
    if rs.len() > 0 {
        let a = rs.drop_last();
        lemma_define_all_latest(st, a);
        let mid = define_all(st, a);
        lemma_occurrences_bound(a, rs.last());
        assert(count_of(st, rs.last()) + rs.len() <= u32::MAX);
        lemma_define_latest(mid, rs.last());
    }
}

/// Renaming a sequence of instructions, each in the state the one before
/// left, starting from an empty table: every definition of a register gets
/// the version one more than the number of its earlier definitions, and
/// every read sees the version of its latest earlier definition, 0 where
/// there is none. So no version of a register is handed out twice.
pub proof fn law_rename_sequence(sts: Seq<VersionState>, is: Seq<Instruction>, ss: Seq<SsaInstruction>)
    requires
        sts.len() == is.len() + 1,
        ss.len() == is.len(),
        sts[0] == (Map::<u32, u32>::empty(), Map::<u32, Seq<u32>>::empty()),
        forall|k: int| 0 <= k < is.len() ==> #[trigger] renamed(sts[k], is[k], ss[k], sts[k + 1]),
        instrs_dest_nums(is).len() < u32::MAX,
    ensures
        forall|k: int, r: u32| 0 <= k <= is.len() ==> (#[trigger] read_reg(sts[k], r)).version == occurrences(instrs_dest_nums(is.take(k)), r),
        forall|k: int, r: u32| 0 <= k <= is.len() ==> (#[trigger] fresh_reg(sts[k], r)).version == occurrences(instrs_dest_nums(is.take(k)), r) + 1,
{
    assert forall|k: int| 0 <= k <= is.len() implies reads_latest(#[trigger] sts[k])
        && forall|r: u32| #[trigger] count_of(sts[k], r) == occurrences(instrs_dest_nums(is.take(k)), r) by {
        lemma_prefix_counts(sts, is, ss, k);
    }
    assert forall|k: int, r: u32| 0 <= k <= is.len() implies (#[trigger] fresh_reg(sts[k], r)).version == occurrences(instrs_dest_nums(is.take(k)), r) + 1 by {
        assert(count_of(sts[k], r) == occurrences(instrs_dest_nums(is.take(k)), r));
        lemma_prefix_room(is, k, r);
    }
}

/// Renaming an instruction reads its source registers, in the order it
/// lists them, at the versions current before the instruction's own
/// definitions: an instruction never reads the version it defines. (Loop
/// headers, array lengths and system calls define first and read after;
/// forms kept only as text read nothing.)
pub proof fn law_sources_read_before_defining(st0: VersionState, i: Instruction, s: SsaInstruction, st1: VersionState)
    requires
        renamed(st0, i, s, st1),
        !(s is Other),
        !(i is For || i is SplitMap || i is ForStep || i is ArrayLen || i is Syscall),
    ensures
        spec_ssa_used_regs(&s) == read_regs(st0, spec_used_regs(&i)),
{
    match i {
        Instruction::StructLit { .. } => {
            assert(spec_ssa_used_regs(&s) =~= read_regs(st0, spec_used_regs(&i)));
        },
        Instruction::TopologyLit { .. } => {
            assert(spec_ssa_used_regs(&s) =~= read_regs(st0, spec_used_regs(&i)));
        },
        _ => {
            assert(spec_ssa_used_regs(&s) =~= read_regs(st0, spec_used_regs(&i)));
        },
    }
}

/// In a sequence renamed from an empty table, each source register an
/// instruction reads carries the number of earlier definitions of its
/// register as its version (0 when there is none), for the instructions of
/// `law_sources_read_before_defining`.
pub proof fn law_sources_count_earlier_defs(sts: Seq<VersionState>, is: Seq<Instruction>, ss: Seq<SsaInstruction>, k: int, j: int)
    requires
        sts.len() == is.len() + 1,
        ss.len() == is.len(),
        sts[0] == (Map::<u32, u32>::empty(), Map::<u32, Seq<u32>>::empty()),
        forall|q: int| 0 <= q < is.len() ==> #[trigger] renamed(sts[q], is[q], ss[q], sts[q + 1]),
        instrs_dest_nums(is).len() < u32::MAX,
        0 <= k < is.len(),
        !(ss[k] is Other),
        !(is[k] is For || is[k] is SplitMap || is[k] is ForStep || is[k] is ArrayLen || is[k] is Syscall),
        0 <= j < spec_used_regs(&is[k]).len(),
    ensures
        spec_ssa_used_regs(&ss[k]).len() == spec_used_regs(&is[k]).len(),
        spec_ssa_used_regs(&ss[k])[j].reg == spec_used_regs(&is[k])[j].0,
        spec_ssa_used_regs(&ss[k])[j].version == occurrences(instrs_dest_nums(is.take(k)), spec_used_regs(&is[k])[j].0),
{
    assert(renamed(sts[k], is[k], ss[k], sts[k + 1]));
    law_sources_read_before_defining(sts[k], is[k], ss[k], sts[k + 1]);
    law_rename_sequence(sts, is, ss);
    let r = spec_used_regs(&is[k])[j].0;
    assert(spec_ssa_used_regs(&ss[k])[j] == read_reg(sts[k], r));
    assert(read_reg(sts[k], r).version == occurrences(instrs_dest_nums(is.take(k)), r));
}

/// Renaming an instruction that defines a register gives its result a new
/// version of that same register, one more than the versions handed out
/// so far, and makes that version current.
pub proof fn law_result_is_fresh(st0: VersionState, i: Instruction, s: SsaInstruction, st1: VersionState, d: Reg)
    requires
        renamed(st0, i, s, st1),
        !(s is Other),
        spec_defined_reg(&i) == Some(d),
        count_of(st0, d.0) < u32::MAX,
    ensures
        spec_ssa_defined_reg(&s) == Some(fresh_reg(st0, d.0)),
        spec_ssa_defined_reg(&s).unwrap().version == count_of(st0, d.0) + 1,
        read_reg(define(st0, d.0), d.0) == fresh_reg(st0, d.0),
{
    assert(stack_of(define(st0, d.0), d.0).last() == (count_of(st0, d.0) + 1) as u32);
}

/// Renaming a terminator keeps where control goes (the same targets in the
/// same order) and reads each register it uses at its current version;
/// only a select defines anything.
pub proof fn law_terminator_renaming(st0: VersionState, t: Terminator, s: SsaTerminator, st1: VersionState)
    requires
        term_renamed(st0, t, s, st1),
        !(t is Select),
    ensures
        ssa_term_succs(s) == term_targets(t),
        st1 == st0,
        term_src_regs(s) == match t {
            Terminator::Branch { cond, .. } => seq![read_reg(st0, cond.0)],
            Terminator::Return { src: Some(r) } => seq![read_reg(st0, r.0)],
            Terminator::MatchEntropy { target, .. } => seq![read_reg(st0, target.0)],
            _ => Seq::<SsaReg>::empty(),
        },
{
    assert(ssa_term_succs(s) =~= term_targets(t));
}

proof fn lemma_prefix_room(is: Seq<Instruction>, k: int, r: u32)
    requires
        0 <= k <= is.len(),
        instrs_dest_nums(is).len() < u32::MAX,
    ensures
        occurrences(instrs_dest_nums(is.take(k)), r) < u32::MAX,
{
    lemma_dests_prefix(is, k);
    lemma_occurrences_bound(instrs_dest_nums(is.take(k)), r);
}

proof fn lemma_dests_prefix(is: Seq<Instruction>, k: int)
    requires
        0 <= k <= is.len(),
    ensures
        instrs_dest_nums(is.take(k)).len() <= instrs_dest_nums(is).len(),
    decreases is.len() - k,
{
    if k < is.len() {
        lemma_dests_prefix(is, k + 1);
        assert(is.take(k + 1).drop_last() =~= is.take(k));
    } else {
        assert(is.take(k) =~= is);
    }
}

proof fn lemma_prefix_counts(sts: Seq<VersionState>, is: Seq<Instruction>, ss: Seq<SsaInstruction>, k: int)
    requires
        sts.len() == is.len() + 1,
        ss.len() == is.len(),
        sts[0] == (Map::<u32, u32>::empty(), Map::<u32, Seq<u32>>::empty()),
        forall|q: int| 0 <= q < is.len() ==> #[trigger] renamed(sts[q], is[q], ss[q], sts[q + 1]),
        instrs_dest_nums(is).len() < u32::MAX,
        0 <= k <= is.len(),
    ensures
        reads_latest(sts[k]),
        forall|r: u32| #[trigger] count_of(sts[k], r) == occurrences(instrs_dest_nums(is.take(k)), r),
    decreases k,
{
    if k == 0 {
        assert(is.take(0) =~= Seq::<Instruction>::empty());
        assert forall|r: u32| #[trigger] current_version_of(sts[0], r) == count_of(sts[0], r) by {}
    } else {
        lemma_prefix_counts(sts, is, ss, k - 1);
        let st = sts[k - 1];
        let rs = instr_dest_nums(is[k - 1]);
        let q = k - 1;
        assert(renamed(sts[q], is[q], ss[q], sts[q + 1]));
        lemma_renamed_defines(st, is[k - 1], ss[k - 1], sts[k]);
        let pre = instrs_dest_nums(is.take(k - 1));
        assert(is.take(k).drop_last() =~= is.take(k - 1));
        assert(is.take(k).last() == is[k - 1]);
        assert(instrs_dest_nums(is.take(k)) == pre + rs);
        lemma_dests_prefix(is, k);
        assert forall|q: u32| #[trigger] count_of(st, q) + rs.len() <= u32::MAX by {
            lemma_occurrences_bound(pre, q);
        }
        lemma_define_all_latest(st, rs);
        assert forall|r: u32| #[trigger] count_of(sts[k], r) == occurrences(instrs_dest_nums(is.take(k)), r) by {
            lemma_occurrences_concat(pre, rs, r);
        }
    }
}


pub proof fn lemma_define_all_concat(st: VersionState, a: Seq<u32>, b: Seq<u32>)
    ensures
        define_all(st, a + b) == define_all(define_all(st, a), b),
    decreases b.len(),
{
    if b.len() == 0 {
        assert(a + b =~= a);
    } else {
        lemma_define_all_concat(st, a, b.drop_last());
        assert((a + b).drop_last() =~= a + b.drop_last());
        assert((a + b).last() == b.last());
    }
}

/// Defining registers pushes onto the stack of `r` once per occurrence of
/// `r`, keeping what was there below.
pub proof fn lemma_define_all_stack(st: VersionState, a: Seq<u32>, r: u32)
    ensures
        stack_of(define_all(st, a), r).len() == stack_of(st, r).len() + occurrences(a, r),
        stack_of(define_all(st, a), r).take(stack_of(st, r).len() as int) == stack_of(st, r),
    decreases a.len(),
{
    if a.len() == 0 {
        assert(stack_of(st, r).take(stack_of(st, r).len() as int) =~= stack_of(st, r));
    } else {
        lemma_define_all_stack(st, a.drop_last(), r);
        let m = define_all(st, a.drop_last());
        let x = a.last();
        if x == r {
            assert(stack_of(define(m, x), r) == stack_of(m, r).push((count_of(m, r) + 1) as u32));
            assert(stack_of(define(m, x), r).take(stack_of(st, r).len() as int) =~= stack_of(m, r).take(stack_of(st, r).len() as int));
        } else {
            assert(stack_of(define(m, x), r) == stack_of(m, r));
        }
    }
}

/// Undefining registers pops the stack of `r` once per occurrence of `r`.
pub proof fn lemma_undefine_all_stack(st: VersionState, b: Seq<u32>, r: u32)
    requires
        stack_of(st, r).len() >= occurrences(b, r),
    ensures
        stack_of(undefine_all(st, b), r) == stack_of(st, r).take(stack_of(st, r).len() - occurrences(b, r)),
    decreases b.len(),
{
    if b.len() == 0 {
        assert(stack_of(st, r).take(stack_of(st, r).len() as int) =~= stack_of(st, r));
    } else {
        lemma_occurrences_bound_le(b, r);
        lemma_undefine_all_stack(st, b.drop_last(), r);
        let m = undefine_all(st, b.drop_last());
        let x = b.last();
        if x == r {
            assert(stack_of(m, r).len() > 0);
            assert(m.1.contains_key(r));
            assert(stack_of(undefine(m, x), r) == stack_of(m, r).drop_last());
            assert(stack_of(m, r).drop_last() =~= stack_of(st, r).take(stack_of(st, r).len() - occurrences(b, r)));
        } else {
            assert(stack_of(undefine(m, x), r) == stack_of(m, r));
        }
    }
}

proof fn lemma_occurrences_bound_le(a: Seq<u32>, r: u32)
    ensures
        a.len() > 0 ==> occurrences(a.drop_last(), r) <= occurrences(a, r),
{
}

/// Renaming a terminator defines its select cases' destinations in order.
pub proof fn lemma_term_defines(st0: VersionState, t: Terminator, s: SsaTerminator, st1: VersionState)
    requires
        term_renamed(st0, t, s, st1),
    ensures
        st1 == define_all(st0, term_dest_regs(t)),
{
    match t {
        Terminator::Select { cases, .. } => {
            let cs = ir_cases(cases@);
            let ds = term_dest_regs(t);
            assert forall|j: int| 0 <= j < cs.len() implies #[trigger] ds[j] == cs[j].dest.0 by {}
            lemma_define_cases_all(st0, cs, ds);
        },
        _ => {
            assert(term_dest_regs(t) =~= Seq::<u32>::empty());
        },
    }
}

/// Instruction `i` defines `r` by a system call.
pub open spec fn syscall_defines(i: Instruction, r: u32) -> bool {
    match i {
        Instruction::Syscall { dest, .. } => dest.0 == r,
        _ => false,
    }
}

/// Away from system calls, renaming a list of instructions defines `r` as
/// often as the list's destination registers name it.
pub proof fn lemma_dest_nums_regs(is: Seq<Instruction>, r: u32)
    requires
        forall|k: int| 0 <= k < is.len() ==> !#[trigger] syscall_defines(is[k], r),
    ensures
        occurrences(instrs_dest_nums(is), r) == occurrences(instrs_dest_regs(is), r),
    decreases is.len(),
{
    if is.len() > 0 {
        let l = is.last();
        assert(!syscall_defines(is[is.len() - 1], r));
        lemma_dest_nums_regs(is.drop_last(), r);
        lemma_occurrences_concat(instrs_dest_nums(is.drop_last()), instr_dest_nums(l), r);
        lemma_occurrences_concat(instrs_dest_regs(is.drop_last()), dest_regs_spec(l).map_values(|x: Reg| x.0), r);
        match l {
            Instruction::Syscall { dest, .. } => {
                assert(dest.0 != r);
                assert(dest_regs_spec(l) =~= Seq::<Reg>::empty());
                assert(occurrences(seq![dest.0], r) == 0) by {
                    assert(seq![dest.0].drop_last() =~= Seq::<u32>::empty());
                    assert(occurrences(Seq::<u32>::empty(), r) == 0);
                    assert(seq![dest.0].last() == dest.0);
                }
                assert(instr_dest_nums(l) == seq![dest.0]);
                assert(occurrences(dest_regs_spec(l).map_values(|x: Reg| x.0), r) == 0) by {
                    assert(dest_regs_spec(l).map_values(|x: Reg| x.0) =~= Seq::<u32>::empty());
                }
            },
            _ => {
                assert(instr_dest_nums(l) == dest_regs_spec(l).map_values(|x: Reg| x.0));
            },
        }
    }
}

} // verus!
