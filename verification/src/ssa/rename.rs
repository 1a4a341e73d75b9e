//! Version bookkeeping for SSA renaming, and the renaming of single
//! instructions.

use vstd::prelude::*;
use std::collections::HashMap;
use crate::ir::{Reg, IrSelectCase, copy_option_string, copy_option_resolution, copy_strings};
use crate::instruction::Instruction;
use crate::ssa::{SsaReg, SsaSelectCase};
use crate::ssa::instruction::{SsaInstruction, erases_to, flat_seq, flat_fields, flat_cases};
use crate::debug_text::{instruction_debug, instruction_debug_text};

verus! {

broadcast use vstd::std_specs::hash::group_hash_axioms;

/// Version state of renaming: for each register the number of versions given
/// out so far, and the stack of versions visible at the current point.
pub type VersionState = (Map<u32, u32>, Map<u32, Seq<u32>>);

pub open spec fn count_of(st: VersionState, r: u32) -> int {
    if st.0.contains_key(r) {
        st.0[r] as int
    } else {
        0
    }
}

pub open spec fn stack_of(st: VersionState, r: u32) -> Seq<u32> {
    if st.1.contains_key(r) {
        st.1[r]
    } else {
        Seq::empty()
    }
}

/// The version that a read of `r` sees: the top of its stack, or 0.
pub open spec fn current_version_of(st: VersionState, r: u32) -> u32 {
    if stack_of(st, r).len() > 0 {
        stack_of(st, r).last()
    } else {
        0
    }
}

pub open spec fn read_reg(st: VersionState, r: u32) -> SsaReg {
    SsaReg { reg: r, version: current_version_of(st, r) }
}

/// The register that the next definition of `r` introduces.
pub open spec fn fresh_reg(st: VersionState, r: u32) -> SsaReg {
    SsaReg { reg: r, version: (count_of(st, r) + 1) as u32 }
}

/// The state after a definition of `r`: one more version, pushed as current.
pub open spec fn define(st: VersionState, r: u32) -> VersionState {
    let v = (count_of(st, r) + 1) as u32;
    (st.0.insert(r, v), st.1.insert(r, stack_of(st, r).push(v)))
}

/// The state after the definition made by the most recent `define` of `r` goes out of scope.
pub open spec fn undefine(st: VersionState, r: u32) -> VersionState {
    if st.1.contains_key(r) && stack_of(st, r).len() > 0 {
        (st.0, st.1.insert(r, stack_of(st, r).drop_last()))
    } else {
        st
    }
}

pub open spec fn read_regs(st: VersionState, rs: Seq<Reg>) -> Seq<SsaReg> {
    rs.map_values(|r: Reg| read_reg(st, r.0))
}

pub open spec fn read_fields(st: VersionState, fs: Seq<(String, Reg)>) -> Seq<(String, SsaReg)> {
    fs.map_values(|p: (String, Reg)| (p.0, read_reg(st, p.1.0)))
}

/// Defines the destinations of select cases in order; the new state and the renamed cases.
pub open spec fn define_cases(st: VersionState, cs: Seq<IrSelectCase>) -> (VersionState, Seq<SsaSelectCase>)
    decreases cs.len(),
{
    if cs.len() == 0 {
        (st, Seq::empty())
    } else {
        let prev = define_cases(st, cs.drop_last());
        let c = cs.last();
        (
            define(prev.0, c.dest.0),
            prev.1.push(SsaSelectCase { chan_id: c.chan_id, dest: fresh_reg(prev.0, c.dest.0), target: c.target }),
        )
    }
}

/// Every register can take `k` more versions without overflow.
pub open spec fn version_room(st: VersionState, k: int) -> bool {
    forall|r: u32| #[trigger] count_of(st, r) + k <= u32::MAX
}

pub proof fn lemma_define_room(st: VersionState, r: u32, k: int)
    requires
        version_room(st, k + 1),
    ensures
        version_room(define(st, r), k),
{
    assert forall|q: u32| #[trigger] count_of(define(st, r), q) + k <= u32::MAX by {
        assert(count_of(st, q) + k + 1 <= u32::MAX);
    }
}

pub proof fn lemma_define_cases_room(st: VersionState, cs: Seq<IrSelectCase>, k: int)
    requires
        version_room(st, k + cs.len()),
    ensures
        version_room(define_cases(st, cs).0, k),
    decreases cs.len(),
{
    if cs.len() > 0 {
        lemma_define_cases_room(st, cs.drop_last(), k + 1);
        lemma_define_room(define_cases(st, cs.drop_last()).0, cs.last().dest.0, k);
    }
}

/// Version counters and the stacks of current versions, per register.
pub struct VersionTable {
    pub counter: HashMap<u32, u32>,
    pub stack: HashMap<u32, Vec<u32>>,
}

impl VersionTable {
    pub open spec fn vstate(&self) -> VersionState {
        (self.counter@, self.stack@.map_values(|v: Vec<u32>| v@))
    }

    pub open spec fn wf(&self) -> bool {
        self.counter@.dom().finite() && self.stack@.dom().finite()
    }

    pub fn new() -> (t: Self)
        ensures
            t.wf(),
            t.vstate().0 == Map::<u32, u32>::empty(),
            t.vstate().1 == Map::<u32, Seq<u32>>::empty(),
    {
        let t = VersionTable { counter: HashMap::new(), stack: HashMap::new() };
        assert(t.vstate().1 =~= Map::<u32, Seq<u32>>::empty());
        t
    }

    /// The version that a read of `reg` sees.
    pub fn current_version(&self, reg: u32) -> (v: u32)
        ensures
            v == current_version_of(self.vstate(), reg),
    {
        match self.stack.get(&reg) {
            Some(s) => {
                if s.len() > 0 {
                    s[s.len() - 1]
                } else {
                    0
                }
            },
            None => 0,
        }
    }

    pub fn current_ssa_reg(&self, reg: Reg) -> (r: SsaReg)
        ensures
            r == read_reg(self.vstate(), reg.0),
    {
        SsaReg { reg: reg.0, version: self.current_version(reg.0) }
    }

    /// Hands out the next version of `reg`.
    pub fn next_version(&mut self, reg: u32) -> (v: u32)
        requires
            old(self).wf(),
            count_of(old(self).vstate(), reg) < u32::MAX,
        ensures
            final(self).wf(),
            v == count_of(old(self).vstate(), reg) + 1,
            final(self).vstate() == (old(self).vstate().0.insert(reg, v), old(self).vstate().1),
    {
        let c = match self.counter.get(&reg) {
            Some(c) => *c,
            None => 0,
        };
        self.counter.insert(reg, c + 1);
        c + 1
    }

    /// Makes `version` the current version of `reg`.
    pub fn push_version(&mut self, reg: u32, version: u32)
        requires
            old(self).wf(),
        ensures
            final(self).wf(),
            final(self).vstate() == (old(self).vstate().0, old(self).vstate().1.insert(reg, stack_of(old(self).vstate(), reg).push(version))),
    {
        let mut s = match self.stack.remove(&reg) {
            Some(s) => s,
            None => Vec::new(),
        };
        s.push(version);
        self.stack.insert(reg, s);
        assert(self.vstate().1 =~= old(self).vstate().1.insert(reg, stack_of(old(self).vstate(), reg).push(version)));
    }

    /// Drops the current version of `reg`.
    pub fn pop_version(&mut self, reg: u32)
        requires
            old(self).wf(),
        ensures
            final(self).wf(),
            final(self).vstate() == undefine(old(self).vstate(), reg),
    {
        match self.stack.remove(&reg) {
            Some(mut s) => {
                if s.len() > 0 {
                    s.pop();
                    self.stack.insert(reg, s);
                    assert(self.vstate().1 =~= undefine(old(self).vstate(), reg).1);
                } else {
                    self.stack.insert(reg, s);
                    assert(self.vstate().1 =~= old(self).vstate().1);
                }
            },
            None => {},
        }
    }

    /// A fresh version of `reg`, made current.
    pub fn define_reg(&mut self, reg: Reg) -> (r: SsaReg)
        requires
            old(self).wf(),
            count_of(old(self).vstate(), reg.0) < u32::MAX,
        ensures
            final(self).wf(),
            r == fresh_reg(old(self).vstate(), reg.0),
            final(self).vstate() == define(old(self).vstate(), reg.0),
    {
        let v = self.next_version(reg.0);
        self.push_version(reg.0, v);
        SsaReg { reg: reg.0, version: v }
    }

    pub fn current_ssa_regs(&self, regs: &Vec<Reg>) -> (r: Vec<SsaReg>)
        ensures
            r@ == read_regs(self.vstate(), regs@),
    {
        let mut out: Vec<SsaReg> = Vec::new();
        let mut i: usize = 0;
        while i < regs.len()
            invariant
                i <= regs@.len(),
                out@ == read_regs(self.vstate(), regs@.subrange(0, i as int)),
            decreases regs@.len() - i,
        {
            out.push(self.current_ssa_reg(regs[i]));
            i = i + 1;
            assert(out@ =~= read_regs(self.vstate(), regs@.subrange(0, i as int)));
        }
        assert(regs@.subrange(0, regs@.len() as int) =~= regs@);
        out
    }

    pub fn current_ssa_fields(&self, fields: &Vec<(String, Reg)>) -> (r: Vec<(String, SsaReg)>)
        ensures
            r@ == read_fields(self.vstate(), fields@),
    {
        let mut out: Vec<(String, SsaReg)> = Vec::new();
        let mut i: usize = 0;
        while i < fields.len()
            invariant
                i <= fields@.len(),
                out@ == read_fields(self.vstate(), fields@.subrange(0, i as int)),
            decreases fields@.len() - i,
        {
            out.push((fields[i].0.clone(), self.current_ssa_reg(fields[i].1)));
            i = i + 1;
            assert(out@ =~= read_fields(self.vstate(), fields@.subrange(0, i as int)));
        }
        assert(fields@.subrange(0, fields@.len() as int) =~= fields@);
        out
    }

    pub fn define_cases(&mut self, cases: &Vec<IrSelectCase>) -> (r: Vec<SsaSelectCase>)
        requires
            old(self).wf(),
            version_room(old(self).vstate(), cases@.len() as int),
        ensures
            final(self).wf(),
            define_cases(old(self).vstate(), cases@) == (final(self).vstate(), r@),
    {
        let mut out: Vec<SsaSelectCase> = Vec::new();
        let mut i: usize = 0;
        let ghost st0 = self.vstate();
        while i < cases.len()
            invariant
                i <= cases@.len(),
                self.wf(),
                define_cases(st0, cases@.subrange(0, i as int)) == (self.vstate(), out@),
                version_room(self.vstate(), cases@.len() - i),
            decreases cases@.len() - i,
        {
            let c = &cases[i];
            proof {
                assert(count_of(self.vstate(), c.dest.0) + (cases@.len() - i) <= u32::MAX);
                lemma_define_room(self.vstate(), c.dest.0, cases@.len() - i - 1);
            }
            let d = self.define_reg(c.dest);
            out.push(SsaSelectCase { chan_id: c.chan_id.clone(), dest: d, target: c.target });
            i = i + 1;
            assert(cases@.subrange(0, i as int).drop_last() =~= cases@.subrange(0, i - 1));
        }
        assert(cases@.subrange(0, cases@.len() as int) =~= cases@);
        out
    }
}

/// `s` is what renaming turns `i` into when the version state is `st0`,
/// and `st1` is the version state afterwards. Operands are read, and
/// results defined, in the order the renamer visits them.
pub open spec fn renamed(st0: VersionState, i: Instruction, s: SsaInstruction, st1: VersionState) -> bool {
    match (i, s) {
        (Instruction::BinaryOp { dest: i_dest, op: i_op, left: i_left, right: i_right }, SsaInstruction::BinaryOp { dest: s_dest, op: s_op, left: s_left, right: s_right }) => s_left == read_reg(st0, i_left.0) && s_right == read_reg(st0, i_right.0) && s_dest == fresh_reg(st0, i_dest.0) && s_op == i_op && st1 == define(st0, i_dest.0),
        (Instruction::UnaryOp { dest: i_dest, op: i_op, src: i_src }, SsaInstruction::UnaryOp { dest: s_dest, op: s_op, src: s_src }) => s_src == read_reg(st0, i_src.0) && s_dest == fresh_reg(st0, i_dest.0) && s_op == i_op && st1 == define(st0, i_dest.0),
        (Instruction::LoadInt { dest: i_dest, value: i_value }, SsaInstruction::LoadInt { dest: s_dest, value: s_value }) => s_dest == fresh_reg(st0, i_dest.0) && s_value == i_value && st1 == define(st0, i_dest.0),
        (Instruction::LoadFloat { dest: i_dest, value: i_value }, SsaInstruction::LoadFloat { dest: s_dest, value: s_value }) => s_dest == fresh_reg(st0, i_dest.0) && s_value == i_value && st1 == define(st0, i_dest.0),
        (Instruction::LoadBool { dest: i_dest, value: i_value }, SsaInstruction::LoadBool { dest: s_dest, value: s_value }) => s_dest == fresh_reg(st0, i_dest.0) && s_value == i_value && st1 == define(st0, i_dest.0),
        (Instruction::LoadString { dest: i_dest, value: i_value }, SsaInstruction::LoadString { dest: s_dest, value: s_value }) => s_dest == fresh_reg(st0, i_dest.0) && s_value == i_value && st1 == define(st0, i_dest.0),
        (Instruction::LoadNull { dest: i_dest }, SsaInstruction::LoadNull { dest: s_dest }) => s_dest == fresh_reg(st0, i_dest.0) && st1 == define(st0, i_dest.0),
        (Instruction::ConstInt { dest: i_dest, value: i_value }, SsaInstruction::ConstInt { dest: s_dest, value: s_value }) => s_dest == fresh_reg(st0, i_dest.0) && s_value == i_value && st1 == define(st0, i_dest.0),
        (Instruction::ConstFloat { dest: i_dest, value: i_value }, SsaInstruction::ConstFloat { dest: s_dest, value: s_value }) => s_dest == fresh_reg(st0, i_dest.0) && s_value == i_value && st1 == define(st0, i_dest.0),
        (Instruction::ConstBool { dest: i_dest, value: i_value }, SsaInstruction::ConstBool { dest: s_dest, value: s_value }) => s_dest == fresh_reg(st0, i_dest.0) && s_value == i_value && st1 == define(st0, i_dest.0),
        (Instruction::ConstString { dest: i_dest, value: i_value }, SsaInstruction::ConstString { dest: s_dest, value: s_value }) => s_dest == fresh_reg(st0, i_dest.0) && s_value == i_value && st1 == define(st0, i_dest.0),
        (Instruction::ConstNull { dest: i_dest }, SsaInstruction::ConstNull { dest: s_dest }) => s_dest == fresh_reg(st0, i_dest.0) && st1 == define(st0, i_dest.0),
        (Instruction::Move { dest: i_dest, src: i_src }, SsaInstruction::Move { dest: s_dest, src: s_src }) => s_src == read_reg(st0, i_src.0) && s_dest == fresh_reg(st0, i_dest.0) && st1 == define(st0, i_dest.0),
        (Instruction::TupleLit { .. }, SsaInstruction::Other(t)) => t@ == instruction_debug(i) && st1 == st0,
        (Instruction::TupleAccess { .. }, SsaInstruction::Other(t)) => t@ == instruction_debug(i) && st1 == st0,
        (Instruction::Consume { src: i_src }, SsaInstruction::Consume { src: s_src }) => s_src == read_reg(st0, i_src.0) && st1 == st0,
        (Instruction::ConsumeField { src: i_src, field: i_field }, SsaInstruction::ConsumeField { src: s_src, field: s_field }) => s_src == read_reg(st0, i_src.0) && s_field == i_field && st1 == st0,
        (Instruction::ConsumeFieldDynamic { target: i_target, index: i_index }, SsaInstruction::ConsumeFieldDynamic { target: s_target, index: s_index }) => s_target == read_reg(st0, i_target.0) && s_index == read_reg(st0, i_index.0) && st1 == st0,
        (Instruction::Clone { dest: i_dest, src: i_src }, SsaInstruction::Clone { dest: s_dest, src: s_src }) => s_src == read_reg(st0, i_src.0) && s_dest == fresh_reg(st0, i_dest.0) && st1 == define(st0, i_dest.0),
        (Instruction::StrBytes { dest: i_dest, src: i_src }, SsaInstruction::StrBytes { dest: s_dest, src: s_src }) => s_src == read_reg(st0, i_src.0) && s_dest == fresh_reg(st0, i_dest.0) && st1 == define(st0, i_dest.0),
        (Instruction::ToStr { dest: i_dest, src: i_src }, SsaInstruction::ToStr { dest: s_dest, src: s_src }) => s_src == read_reg(st0, i_src.0) && s_dest == fresh_reg(st0, i_dest.0) && st1 == define(st0, i_dest.0),
        (Instruction::ConditionalSelect { .. }, SsaInstruction::Other(t)) => t@ == instruction_debug(i) && st1 == st0,
        (Instruction::Jump { target: i_target }, SsaInstruction::Jump { target: s_target }) => s_target == i_target && st1 == st0,
        (Instruction::JumpIf { cond: i_cond, target: i_target }, SsaInstruction::JumpIf { cond: s_cond, target: s_target }) => s_cond == read_reg(st0, i_cond.0) && s_target == i_target && st1 == st0,
        (Instruction::JumpIfNot { cond: i_cond, target: i_target }, SsaInstruction::JumpIfNot { cond: s_cond, target: s_target }) => s_cond == read_reg(st0, i_cond.0) && s_target == i_target && st1 == st0,
        (Instruction::Call { routine: i_routine, args: i_args, dest: i_dest }, SsaInstruction::Call { routine: s_routine, args: s_args, dest: s_dest }) => s_args@ == read_regs(st0, i_args@) && s_dest == fresh_reg(st0, i_dest.0) && s_routine == i_routine && st1 == define(st0, i_dest.0),
        (Instruction::DynamicCall { method: i_method, args: i_args, dest: i_dest, budget: i_budget }, SsaInstruction::DynamicCall { method: s_method, args: s_args, dest: s_dest, budget: s_budget }) => s_args@ == read_regs(st0, i_args@) && s_dest == fresh_reg(st0, i_dest.0) && s_method == i_method && s_budget == i_budget && st1 == define(st0, i_dest.0),
        (Instruction::Return { .. }, SsaInstruction::Other(t)) => t@ == instruction_debug(i) && st1 == st0,
        (Instruction::Isolate { name: i_name, manifest: i_manifest }, SsaInstruction::Isolate { name: s_name, manifest: s_manifest }) => s_name == i_name && s_manifest == i_manifest && st1 == st0,
        (Instruction::EndIsolate, SsaInstruction::EndIsolate) => st1 == st0,
        (Instruction::Lease { target_reg: i_target_reg, source_reg: i_source_reg, duration_ms: i_duration_ms }, SsaInstruction::Lease { target_reg: s_target_reg, source_reg: s_source_reg, duration_ms: s_duration_ms }) => s_source_reg == read_reg(st0, i_source_reg.0) && s_target_reg == fresh_reg(st0, i_target_reg.0) && s_duration_ms == i_duration_ms && st1 == define(st0, i_target_reg.0),
        (Instruction::EndLease { source_reg: i_source_reg, duration_ms: i_duration_ms }, SsaInstruction::EndLease { source_reg: s_source_reg, duration_ms: s_duration_ms }) => s_source_reg == read_reg(st0, i_source_reg.0) && s_duration_ms == i_duration_ms && st1 == st0,
        (Instruction::Split { parent: i_parent, branches: i_branches }, SsaInstruction::Split { parent: s_parent, branches: s_branches }) => s_parent == i_parent && s_branches@ == i_branches@ && st1 == st0,
        (Instruction::Merge { branches: i_branches, target: i_target, resolution: i_resolution }, SsaInstruction::Merge { branches: s_branches, target: s_target, resolution: s_resolution }) => s_branches@ == i_branches@ && s_target == i_target && s_resolution == i_resolution && st1 == st0,
        (Instruction::Entangle { regs: i_regs }, SsaInstruction::Entangle { regs: s_regs }) => s_regs@ == read_regs(st0, i_regs@) && st1 == st0,
        (Instruction::SetEntropyMode { mode: i_mode }, SsaInstruction::SetEntropyMode { mode: s_mode }) => s_mode == i_mode && st1 == st0,
        (Instruction::Anchor { name: i_name }, SsaInstruction::Anchor { name: s_name }) => s_name == i_name && st1 == st0,
        (Instruction::Rewind { target: i_target, anchor: i_anchor }, SsaInstruction::Rewind { target: s_target, anchor: s_anchor }) => s_target == i_target && s_anchor == i_anchor && st1 == st0,
        (Instruction::Commit { vars: i_vars }, SsaInstruction::Commit { vars: s_vars }) => s_vars@ == i_vars@ && st1 == st0,
        (Instruction::Watchdog { target: i_target, timeout_ms: i_timeout_ms, recovery_jump: i_recovery_jump }, SsaInstruction::Watchdog { target: s_target, timeout_ms: s_timeout_ms, recovery_jump: s_recovery_jump }) => s_target == i_target && s_timeout_ms == i_timeout_ms && s_recovery_jump == i_recovery_jump && st1 == st0,
        (Instruction::Speculate { max_ms: i_max_ms, fallback_target: i_fallback_target }, SsaInstruction::Speculate { max_ms: s_max_ms, fallback_target: s_fallback_target }) => s_max_ms == i_max_ms && s_fallback_target == i_fallback_target && st1 == st0,
        (Instruction::EndSpeculate { max_ms: i_max_ms, fallback_target: i_fallback_target }, SsaInstruction::EndSpeculate { max_ms: s_max_ms, fallback_target: s_fallback_target }) => s_max_ms == i_max_ms && s_fallback_target == i_fallback_target && st1 == st0,
        (Instruction::Collapse, SsaInstruction::Collapse) => st1 == st0,
        (Instruction::Select { max_ms: i_max_ms, cases: i_cases, timeout_target: i_timeout_target }, SsaInstruction::Select { max_ms: s_max_ms, cases: s_cases, timeout_target: s_timeout_target }) => define_cases(st0, i_cases@).1 == s_cases@ && s_max_ms == i_max_ms && s_timeout_target == i_timeout_target && st1 == define_cases(st0, i_cases@).0,
        (Instruction::MatchEntropy { target: i_target, valid_target: i_valid_target, decayed_target: i_decayed_target, pending_target: i_pending_target, consumed_target: i_consumed_target }, SsaInstruction::MatchEntropy { target: s_target, valid_target: s_valid_target, decayed_target: s_decayed_target, pending_target: s_pending_target, consumed_target: s_consumed_target }) => s_target == read_reg(st0, i_target.0) && s_valid_target == i_valid_target && s_decayed_target == i_decayed_target && s_pending_target == i_pending_target && s_consumed_target == i_consumed_target && st1 == st0,
        (Instruction::RelativisticBlock { target: i_target, block_pc: i_block_pc, block_len: i_block_len }, SsaInstruction::RelativisticBlock { target: s_target, block_pc: s_block_pc, block_len: s_block_len }) => s_target == i_target && s_block_pc == i_block_pc && s_block_len == i_block_len && st1 == st0,
        (Instruction::PeriodicEpoch { .. }, SsaInstruction::Other(t)) => t@ == instruction_debug(i) && st1 == st0,
        (Instruction::EndPeriodicEpoch { .. }, SsaInstruction::Other(t)) => t@ == instruction_debug(i) && st1 == st0,
        (Instruction::FreezeBaseWatermark, SsaInstruction::Other(t)) => t@ == instruction_debug(i) && st1 == st0,
        (Instruction::ResetBaseWatermark, SsaInstruction::Other(t)) => t@ == instruction_debug(i) && st1 == st0,
        (Instruction::SetSaturationPolicy { .. }, SsaInstruction::Other(t)) => t@ == instruction_debug(i) && st1 == st0,
        (Instruction::ArenaIntrospect { .. }, SsaInstruction::Other(t)) => t@ == instruction_debug(i) && st1 == st0,
        (Instruction::CapabilityCheck { .. }, SsaInstruction::Other(t)) => t@ == instruction_debug(i) && st1 == st0,
        (Instruction::SpeculationMode { mode: i_mode }, SsaInstruction::SpeculationMode { mode: s_mode }) => s_mode == i_mode && st1 == st0,
        (Instruction::OpenChan { name: i_name, capacity: i_capacity, decay_after_ms: i_decay_after_ms }, SsaInstruction::OpenChan { name: s_name, capacity: s_capacity, decay_after_ms: s_decay_after_ms }) => s_name == i_name && s_capacity == i_capacity && s_decay_after_ms == i_decay_after_ms && st1 == st0,
        (Instruction::ChanSend { chan_id: i_chan_id, src: i_src }, SsaInstruction::ChanSend { chan_id: s_chan_id, src: s_src }) => s_src == read_reg(st0, i_src.0) && s_chan_id == i_chan_id && st1 == st0,
        (Instruction::ChanRecv { dest: i_dest, chan_id: i_chan_id }, SsaInstruction::ChanRecv { dest: s_dest, chan_id: s_chan_id }) => s_dest == fresh_reg(st0, i_dest.0) && s_chan_id == i_chan_id && st1 == define(st0, i_dest.0),
        (Instruction::AwaitChan { chan_id: i_chan_id }, SsaInstruction::AwaitChan { chan_id: s_chan_id }) => s_chan_id == i_chan_id && st1 == st0,
        (Instruction::StructLit { dest: i_dest, fields: i_fields, type_label: i_type_label }, SsaInstruction::StructLit { dest: s_dest, fields: s_fields, type_label: s_type_label }) => s_fields@ == read_fields(st0, i_fields@) && s_dest == fresh_reg(st0, i_dest.0) && s_type_label == i_type_label && st1 == define(st0, i_dest.0),
        (Instruction::TopologyLit { dest: i_dest, fields: i_fields }, SsaInstruction::TopologyLit { dest: s_dest, fields: s_fields }) => s_fields@ == read_fields(st0, i_fields@) && s_dest == fresh_reg(st0, i_dest.0) && st1 == define(st0, i_dest.0),
        (Instruction::ArrayLit { dest: i_dest, elements: i_elements }, SsaInstruction::ArrayLit { dest: s_dest, elements: s_elements }) => s_elements@ == read_regs(st0, i_elements@) && s_dest == fresh_reg(st0, i_dest.0) && st1 == define(st0, i_dest.0),
        (Instruction::ArrayRepeat { .. }, SsaInstruction::Other(t)) => t@ == instruction_debug(i) && st1 == st0,
        (Instruction::ArraySlice { .. }, SsaInstruction::Other(t)) => t@ == instruction_debug(i) && st1 == st0,
        (Instruction::FieldAccess { dest: i_dest, target: i_target, field: i_field }, SsaInstruction::FieldAccess { dest: s_dest, target: s_target, field: s_field }) => s_target == read_reg(st0, i_target.0) && s_dest == fresh_reg(st0, i_dest.0) && s_field == i_field && st1 == define(st0, i_dest.0),
        (Instruction::FieldUpdate { target: i_target, field: i_field, src: i_src }, SsaInstruction::FieldUpdate { target: s_target, old_target: s_old_target, field: s_field, src: s_src }) => s_old_target == read_reg(st0, i_target.0) && s_src == read_reg(st0, i_src.0) && s_target == fresh_reg(st0, i_target.0) && s_field == i_field && st1 == define(st0, i_target.0),
        (Instruction::Syscall { dest: i_dest, target: i_target, args: i_args, duration_ms: i_duration_ms }, SsaInstruction::Syscall { dest: s_dest, target: s_target, args: s_args, duration_ms: s_duration_ms }) => s_dest == fresh_reg(st0, i_dest.0) && s_args@ == read_regs(define(st0, i_dest.0), i_args@) && s_target == i_target && s_duration_ms == i_duration_ms && st1 == define(st0, i_dest.0),
        (Instruction::AutoDrop { target: i_target, spec: i_spec }, SsaInstruction::AutoDrop { target: s_target, spec: s_spec }) => s_target == read_reg(st0, i_target.0) && s_spec == i_spec && st1 == st0,
        (Instruction::IndexAccess { dest: i_dest, target: i_target, index: i_index }, SsaInstruction::IndexAccess { dest: s_dest, target: s_target, index: s_index }) => s_target == read_reg(st0, i_target.0) && s_index == read_reg(st0, i_index.0) && s_dest == fresh_reg(st0, i_dest.0) && st1 == define(st0, i_dest.0),
        (Instruction::IndexFieldUpdate { target: i_target, index: i_index, field: i_field, src: i_src }, SsaInstruction::IndexFieldUpdate { target: s_target, old_target: s_old_target, index: s_index, field: s_field, src: s_src }) => s_old_target == read_reg(st0, i_target.0) && s_index == read_reg(st0, i_index.0) && s_src == read_reg(st0, i_src.0) && s_target == fresh_reg(st0, i_target.0) && s_field == i_field && st1 == define(st0, i_target.0),
        (Instruction::TypeAssert { dest: i_dest, src: i_src, type_label: i_type_label }, SsaInstruction::TypeAssert { dest: s_dest, src: s_src, type_label: s_type_label }) => s_src == read_reg(st0, i_src.0) && s_dest == fresh_reg(st0, i_dest.0) && s_type_label == i_type_label && st1 == define(st0, i_dest.0),
        (Instruction::TypeCast { dest: i_dest, src: i_src, target_type: i_target_type }, SsaInstruction::TypeCast { dest: s_dest, src: s_src, target_type: s_target_type }) => s_src == read_reg(st0, i_src.0) && s_dest == fresh_reg(st0, i_dest.0) && s_target_type == i_target_type && st1 == define(st0, i_dest.0),
        (Instruction::AssertState { src: i_src, state: i_state }, SsaInstruction::AssertState { src: s_src, state: s_state }) => s_src == read_reg(st0, i_src.0) && s_state == i_state && st1 == st0,
        (Instruction::TryTypeAssert { dest: i_dest, src: i_src, type_label: i_type_label, success: i_success }, SsaInstruction::TryTypeAssert { dest: s_dest, src: s_src, type_label: s_type_label, success: s_success }) => s_src == read_reg(st0, i_src.0) && s_dest == fresh_reg(st0, i_dest.0) && s_success == fresh_reg(define(st0, i_dest.0), i_success.0) && s_type_label == i_type_label && st1 == define(define(st0, i_dest.0), i_success.0),
        (Instruction::TryEnumVariant { .. }, SsaInstruction::Other(t)) => t@ == instruction_debug(i) && st1 == st0,
        (Instruction::Print { src: i_src }, SsaInstruction::Print { src: s_src }) => s_src == read_reg(st0, i_src.0) && st1 == st0,
        (Instruction::Debug { src: i_src }, SsaInstruction::Debug { src: s_src }) => s_src == read_reg(st0, i_src.0) && st1 == st0,
        (Instruction::AssertTime { op: i_op, limit_ms: i_limit_ms }, SsaInstruction::AssertTime { op: s_op, limit_ms: s_limit_ms }) => s_op == i_op && s_limit_ms == i_limit_ms && st1 == st0,
        (Instruction::Slice { ms: i_ms }, SsaInstruction::Slice { ms: s_ms }) => s_ms == i_ms && st1 == st0,
        (Instruction::Break, SsaInstruction::Break) => st1 == st0,
        (Instruction::LoopTick, SsaInstruction::LoopTick) => st1 == st0,
        (Instruction::EndLoopTick, SsaInstruction::EndLoopTick) => st1 == st0,
        (Instruction::Capability { cap: i_cap }, SsaInstruction::Capability { cap: s_cap }) => s_cap == i_cap && st1 == st0,
        (Instruction::For { dest_cond: i_dest_cond, item_reg: i_item_reg, item_name: i_item_name, mode: i_mode, source: i_source, pacing_ms: i_pacing_ms, max_ms: i_max_ms }, SsaInstruction::For { dest_cond: s_dest_cond, item_reg: s_item_reg, item_name: s_item_name, mode: s_mode, source: s_source, pacing_ms: s_pacing_ms, max_ms: s_max_ms }) => s_dest_cond == fresh_reg(st0, i_dest_cond.0) && s_item_reg == fresh_reg(define(st0, i_dest_cond.0), i_item_reg.0) && s_source == read_reg(define(define(st0, i_dest_cond.0), i_item_reg.0), i_source.0) && s_item_name == i_item_name && s_mode == i_mode && s_pacing_ms == i_pacing_ms && s_max_ms == i_max_ms && st1 == define(define(st0, i_dest_cond.0), i_item_reg.0),
        (Instruction::EndFor, SsaInstruction::EndFor) => st1 == st0,
        (Instruction::SplitMap { item_reg: i_item_reg, item_name: i_item_name, mode: i_mode, source: i_source, reconcile: i_reconcile }, SsaInstruction::SplitMap { item_reg: s_item_reg, item_name: s_item_name, mode: s_mode, source: s_source, reconcile: s_reconcile }) => s_item_reg == fresh_reg(st0, i_item_reg.0) && s_source == read_reg(define(st0, i_item_reg.0), i_source.0) && s_item_name == i_item_name && s_mode == i_mode && s_reconcile == i_reconcile && st1 == define(st0, i_item_reg.0),
        (Instruction::EndSplitMap, SsaInstruction::EndSplitMap) => st1 == st0,
        (Instruction::Defer { dest: i_dest, cap: i_cap, deadline_ms: i_deadline_ms }, SsaInstruction::Defer { dest: s_dest, cap: s_cap, deadline_ms: s_deadline_ms }) => s_dest == fresh_reg(st0, i_dest.0) && s_cap == i_cap && s_deadline_ms == i_deadline_ms && st1 == define(st0, i_dest.0),
        (Instruction::Await { target: i_target }, SsaInstruction::Await { target: s_target }) => s_target == read_reg(st0, i_target.0) && st1 == st0,
        (Instruction::Loop { max_ms: i_max_ms }, SsaInstruction::Loop { max_ms: s_max_ms }) => s_max_ms == i_max_ms && st1 == st0,
        (Instruction::EndLoop { max_ms: i_max_ms }, SsaInstruction::EndLoop { max_ms: s_max_ms }) => s_max_ms == i_max_ms && st1 == st0,
        (Instruction::LoopTickOn { chan_id: i_chan_id }, SsaInstruction::LoopTickOn { chan_id: s_chan_id }) => s_chan_id == i_chan_id && st1 == st0,
        (Instruction::While { max_ms: i_max_ms }, SsaInstruction::While { max_ms: s_max_ms }) => s_max_ms == i_max_ms && st1 == st0,
        (Instruction::EndWhile { max_ms: i_max_ms }, SsaInstruction::EndWhile { max_ms: s_max_ms }) => s_max_ms == i_max_ms && st1 == st0,
        (Instruction::ForStep { dest_cond: i_dest_cond, item_reg: i_item_reg, item_name: i_item_name, source: i_source, step_ms: i_step_ms }, SsaInstruction::ForStep { dest_cond: s_dest_cond, item_reg: s_item_reg, item_name: s_item_name, source: s_source, step_ms: s_step_ms }) => s_dest_cond == fresh_reg(st0, i_dest_cond.0) && s_item_reg == fresh_reg(define(st0, i_dest_cond.0), i_item_reg.0) && s_source == read_reg(define(define(st0, i_dest_cond.0), i_item_reg.0), i_source.0) && s_item_name == i_item_name && s_step_ms == i_step_ms && st1 == define(define(st0, i_dest_cond.0), i_item_reg.0),
        (Instruction::EndForStep, SsaInstruction::EndForStep) => st1 == st0,
        (Instruction::ArrayLen { dest: i_dest, src: i_src }, SsaInstruction::ArrayLen { dest: s_dest, src: s_src }) => s_dest == fresh_reg(st0, i_dest.0) && s_src == read_reg(define(st0, i_dest.0), i_src.0) && st1 == define(st0, i_dest.0),
        _ => false,
    }
}

/// How many results renaming `i` defines.
pub open spec fn defs_of(i: Instruction) -> int {
    match i {
        Instruction::BinaryOp { dest: i_dest, op: i_op, left: i_left, right: i_right } => 1,
        Instruction::UnaryOp { dest: i_dest, op: i_op, src: i_src } => 1,
        Instruction::LoadInt { dest: i_dest, value: i_value } => 1,
        Instruction::LoadFloat { dest: i_dest, value: i_value } => 1,
        Instruction::LoadBool { dest: i_dest, value: i_value } => 1,
        Instruction::LoadString { dest: i_dest, value: i_value } => 1,
        Instruction::LoadNull { dest: i_dest } => 1,
        Instruction::ConstInt { dest: i_dest, value: i_value } => 1,
        Instruction::ConstFloat { dest: i_dest, value: i_value } => 1,
        Instruction::ConstBool { dest: i_dest, value: i_value } => 1,
        Instruction::ConstString { dest: i_dest, value: i_value } => 1,
        Instruction::ConstNull { dest: i_dest } => 1,
        Instruction::Move { dest: i_dest, src: i_src } => 1,
        Instruction::Clone { dest: i_dest, src: i_src } => 1,
        Instruction::StrBytes { dest: i_dest, src: i_src } => 1,
        Instruction::ToStr { dest: i_dest, src: i_src } => 1,
        Instruction::Call { routine: i_routine, args: i_args, dest: i_dest } => 1,
        Instruction::DynamicCall { method: i_method, args: i_args, dest: i_dest, budget: i_budget } => 1,
        Instruction::Lease { target_reg: i_target_reg, source_reg: i_source_reg, duration_ms: i_duration_ms } => 1,
        Instruction::Select { max_ms: i_max_ms, cases: i_cases, timeout_target: i_timeout_target } => 0 + i_cases@.len() as int,
        Instruction::ChanRecv { dest: i_dest, chan_id: i_chan_id } => 1,
        Instruction::StructLit { dest: i_dest, fields: i_fields, type_label: i_type_label } => 1,
        Instruction::TopologyLit { dest: i_dest, fields: i_fields } => 1,
        Instruction::ArrayLit { dest: i_dest, elements: i_elements } => 1,
        Instruction::FieldAccess { dest: i_dest, target: i_target, field: i_field } => 1,
        Instruction::FieldUpdate { target: i_target, field: i_field, src: i_src } => 1,
        Instruction::Syscall { dest: i_dest, target: i_target, args: i_args, duration_ms: i_duration_ms } => 1,
        Instruction::IndexAccess { dest: i_dest, target: i_target, index: i_index } => 1,
        Instruction::IndexFieldUpdate { target: i_target, index: i_index, field: i_field, src: i_src } => 1,
        Instruction::TypeAssert { dest: i_dest, src: i_src, type_label: i_type_label } => 1,
        Instruction::TypeCast { dest: i_dest, src: i_src, target_type: i_target_type } => 1,
        Instruction::TryTypeAssert { dest: i_dest, src: i_src, type_label: i_type_label, success: i_success } => 2,
        Instruction::For { dest_cond: i_dest_cond, item_reg: i_item_reg, item_name: i_item_name, mode: i_mode, source: i_source, pacing_ms: i_pacing_ms, max_ms: i_max_ms } => 2,
        Instruction::SplitMap { item_reg: i_item_reg, item_name: i_item_name, mode: i_mode, source: i_source, reconcile: i_reconcile } => 1,
        Instruction::Defer { dest: i_dest, cap: i_cap, deadline_ms: i_deadline_ms } => 1,
        Instruction::ForStep { dest_cond: i_dest_cond, item_reg: i_item_reg, item_name: i_item_name, source: i_source, step_ms: i_step_ms } => 2,
        Instruction::ArrayLen { dest: i_dest, src: i_src } => 1,
        _ => 0,
    }
}

impl VersionTable {
    /// Renames one instruction: operands read the current version of their
    /// register, results get a fresh version that becomes current.
    pub fn rename_instruction(&mut self, instr: &Instruction) -> (s: SsaInstruction)
        requires
            old(self).wf(),
            version_room(old(self).vstate(), defs_of(*instr)),
        ensures
            final(self).wf(),
            renamed(old(self).vstate(), *instr, s, final(self).vstate()),
    {
        match instr {
            Instruction::BinaryOp { dest: dest, op: op, left: left, right: right } => {
                let s_left = self.current_ssa_reg(*left);
                let s_right = self.current_ssa_reg(*right);
                let s_dest = self.define_reg(*dest);
                SsaInstruction::BinaryOp { dest: s_dest, op: *op, left: s_left, right: s_right }
            },
            Instruction::UnaryOp { dest: dest, op: op, src: src } => {
                let s_src = self.current_ssa_reg(*src);
                let s_dest = self.define_reg(*dest);
                SsaInstruction::UnaryOp { dest: s_dest, op: *op, src: s_src }
            },
            Instruction::LoadInt { dest: dest, value: value } => {
                let s_dest = self.define_reg(*dest);
                SsaInstruction::LoadInt { dest: s_dest, value: *value }
            },
            Instruction::LoadFloat { dest: dest, value: value } => {
                let s_dest = self.define_reg(*dest);
                SsaInstruction::LoadFloat { dest: s_dest, value: *value }
            },
            Instruction::LoadBool { dest: dest, value: value } => {
                let s_dest = self.define_reg(*dest);
                SsaInstruction::LoadBool { dest: s_dest, value: *value }
            },
            Instruction::LoadString { dest: dest, value: value } => {
                let s_dest = self.define_reg(*dest);
                SsaInstruction::LoadString { dest: s_dest, value: value.clone() }
            },
            Instruction::LoadNull { dest: dest } => {
                let s_dest = self.define_reg(*dest);
                SsaInstruction::LoadNull { dest: s_dest }
            },
            Instruction::ConstInt { dest: dest, value: value } => {
                let s_dest = self.define_reg(*dest);
                SsaInstruction::ConstInt { dest: s_dest, value: *value }
            },
            Instruction::ConstFloat { dest: dest, value: value } => {
                let s_dest = self.define_reg(*dest);
                SsaInstruction::ConstFloat { dest: s_dest, value: *value }
            },
            Instruction::ConstBool { dest: dest, value: value } => {
                let s_dest = self.define_reg(*dest);
                SsaInstruction::ConstBool { dest: s_dest, value: *value }
            },
            Instruction::ConstString { dest: dest, value: value } => {
                let s_dest = self.define_reg(*dest);
                SsaInstruction::ConstString { dest: s_dest, value: value.clone() }
            },
            Instruction::ConstNull { dest: dest } => {
                let s_dest = self.define_reg(*dest);
                SsaInstruction::ConstNull { dest: s_dest }
            },
            Instruction::Move { dest: dest, src: src } => {
                let s_src = self.current_ssa_reg(*src);
                let s_dest = self.define_reg(*dest);
                SsaInstruction::Move { dest: s_dest, src: s_src }
            },
            Instruction::TupleLit { .. } => SsaInstruction::Other(instruction_debug_text(instr)),
            Instruction::TupleAccess { .. } => SsaInstruction::Other(instruction_debug_text(instr)),
            Instruction::Consume { src: src } => {
                let s_src = self.current_ssa_reg(*src);
                SsaInstruction::Consume { src: s_src }
            },
            Instruction::ConsumeField { src: src, field: field } => {
                let s_src = self.current_ssa_reg(*src);
                SsaInstruction::ConsumeField { src: s_src, field: field.clone() }
            },
            Instruction::ConsumeFieldDynamic { target: target, index: index } => {
                let s_target = self.current_ssa_reg(*target);
                let s_index = self.current_ssa_reg(*index);
                SsaInstruction::ConsumeFieldDynamic { target: s_target, index: s_index }
            },
            Instruction::Clone { dest: dest, src: src } => {
                let s_src = self.current_ssa_reg(*src);
                let s_dest = self.define_reg(*dest);
                SsaInstruction::Clone { dest: s_dest, src: s_src }
            },
            Instruction::StrBytes { dest: dest, src: src } => {
                let s_src = self.current_ssa_reg(*src);
                let s_dest = self.define_reg(*dest);
                SsaInstruction::StrBytes { dest: s_dest, src: s_src }
            },
            Instruction::ToStr { dest: dest, src: src } => {
                let s_src = self.current_ssa_reg(*src);
                let s_dest = self.define_reg(*dest);
                SsaInstruction::ToStr { dest: s_dest, src: s_src }
            },
            Instruction::ConditionalSelect { .. } => SsaInstruction::Other(instruction_debug_text(instr)),
            Instruction::Jump { target: target } => SsaInstruction::Jump { target: *target },
            Instruction::JumpIf { cond: cond, target: target } => {
                let s_cond = self.current_ssa_reg(*cond);
                SsaInstruction::JumpIf { cond: s_cond, target: *target }
            },
            Instruction::JumpIfNot { cond: cond, target: target } => {
                let s_cond = self.current_ssa_reg(*cond);
                SsaInstruction::JumpIfNot { cond: s_cond, target: *target }
            },
            Instruction::Call { routine: routine, args: args, dest: dest } => {
                let s_args = self.current_ssa_regs(args);
                let s_dest = self.define_reg(*dest);
                SsaInstruction::Call { routine: routine.clone(), args: s_args, dest: s_dest }
            },
            Instruction::DynamicCall { method: method, args: args, dest: dest, budget: budget } => {
                let s_args = self.current_ssa_regs(args);
                let s_dest = self.define_reg(*dest);
                SsaInstruction::DynamicCall { method: method.clone(), args: s_args, dest: s_dest, budget: *budget }
            },
            Instruction::Return { .. } => SsaInstruction::Other(instruction_debug_text(instr)),
            Instruction::Isolate { name: name, manifest: manifest } => SsaInstruction::Isolate { name: name.clone(), manifest: manifest.duplicate() },
            Instruction::EndIsolate => SsaInstruction::EndIsolate,
            Instruction::Lease { target_reg: target_reg, source_reg: source_reg, duration_ms: duration_ms } => {
                let s_source_reg = self.current_ssa_reg(*source_reg);
                let s_target_reg = self.define_reg(*target_reg);
                SsaInstruction::Lease { target_reg: s_target_reg, source_reg: s_source_reg, duration_ms: *duration_ms }
            },
            Instruction::EndLease { source_reg: source_reg, duration_ms: duration_ms } => {
                let s_source_reg = self.current_ssa_reg(*source_reg);
                SsaInstruction::EndLease { source_reg: s_source_reg, duration_ms: *duration_ms }
            },
            Instruction::Split { parent: parent, branches: branches } => SsaInstruction::Split { parent: parent.clone(), branches: copy_strings(branches) },
            Instruction::Merge { branches: branches, target: target, resolution: resolution } => SsaInstruction::Merge { branches: copy_strings(branches), target: target.clone(), resolution: resolution.duplicate() },
            Instruction::Entangle { regs: regs } => {
                let s_regs = self.current_ssa_regs(regs);
                SsaInstruction::Entangle { regs: s_regs }
            },
            Instruction::SetEntropyMode { mode: mode } => SsaInstruction::SetEntropyMode { mode: *mode },
            Instruction::Anchor { name: name } => SsaInstruction::Anchor { name: name.clone() },
            Instruction::Rewind { target: target, anchor: anchor } => SsaInstruction::Rewind { target: target.clone(), anchor: anchor.clone() },
            Instruction::Commit { vars: vars } => SsaInstruction::Commit { vars: copy_strings(vars) },
            Instruction::Watchdog { target: target, timeout_ms: timeout_ms, recovery_jump: recovery_jump } => SsaInstruction::Watchdog { target: target.clone(), timeout_ms: *timeout_ms, recovery_jump: *recovery_jump },
            Instruction::Speculate { max_ms: max_ms, fallback_target: fallback_target } => SsaInstruction::Speculate { max_ms: *max_ms, fallback_target: *fallback_target },
            Instruction::EndSpeculate { max_ms: max_ms, fallback_target: fallback_target } => SsaInstruction::EndSpeculate { max_ms: *max_ms, fallback_target: *fallback_target },
            Instruction::Collapse => SsaInstruction::Collapse,
            Instruction::Select { max_ms: max_ms, cases: cases, timeout_target: timeout_target } => {
                let s_cases = self.define_cases(cases);
                SsaInstruction::Select { max_ms: *max_ms, cases: s_cases, timeout_target: *timeout_target }
            },
            Instruction::MatchEntropy { target: target, valid_target: valid_target, decayed_target: decayed_target, pending_target: pending_target, consumed_target: consumed_target } => {
                let s_target = self.current_ssa_reg(*target);
                SsaInstruction::MatchEntropy { target: s_target, valid_target: *valid_target, decayed_target: *decayed_target, pending_target: *pending_target, consumed_target: *consumed_target }
            },
            Instruction::RelativisticBlock { target: target, block_pc: block_pc, block_len: block_len } => SsaInstruction::RelativisticBlock { target: target.clone(), block_pc: *block_pc, block_len: *block_len },
            Instruction::PeriodicEpoch { .. } => SsaInstruction::Other(instruction_debug_text(instr)),
            Instruction::EndPeriodicEpoch { .. } => SsaInstruction::Other(instruction_debug_text(instr)),
            Instruction::FreezeBaseWatermark => SsaInstruction::Other(instruction_debug_text(instr)),
            Instruction::ResetBaseWatermark => SsaInstruction::Other(instruction_debug_text(instr)),
            Instruction::SetSaturationPolicy { .. } => SsaInstruction::Other(instruction_debug_text(instr)),
            Instruction::ArenaIntrospect { .. } => SsaInstruction::Other(instruction_debug_text(instr)),
            Instruction::CapabilityCheck { .. } => SsaInstruction::Other(instruction_debug_text(instr)),
            Instruction::SpeculationMode { mode: mode } => SsaInstruction::SpeculationMode { mode: *mode },
            Instruction::OpenChan { name: name, capacity: capacity, decay_after_ms: decay_after_ms } => SsaInstruction::OpenChan { name: name.clone(), capacity: *capacity, decay_after_ms: *decay_after_ms },
            Instruction::ChanSend { chan_id: chan_id, src: src } => {
                let s_src = self.current_ssa_reg(*src);
                SsaInstruction::ChanSend { chan_id: chan_id.clone(), src: s_src }
            },
            Instruction::ChanRecv { dest: dest, chan_id: chan_id } => {
                let s_dest = self.define_reg(*dest);
                SsaInstruction::ChanRecv { dest: s_dest, chan_id: chan_id.clone() }
            },
            Instruction::AwaitChan { chan_id: chan_id } => SsaInstruction::AwaitChan { chan_id: chan_id.clone() },
            Instruction::StructLit { dest: dest, fields: fields, type_label: type_label } => {
                let s_fields = self.current_ssa_fields(fields);
                let s_dest = self.define_reg(*dest);
                SsaInstruction::StructLit { dest: s_dest, fields: s_fields, type_label: copy_option_string(type_label) }
            },
            Instruction::TopologyLit { dest: dest, fields: fields } => {
                let s_fields = self.current_ssa_fields(fields);
                let s_dest = self.define_reg(*dest);
                SsaInstruction::TopologyLit { dest: s_dest, fields: s_fields }
            },
            Instruction::ArrayLit { dest: dest, elements: elements } => {
                let s_elements = self.current_ssa_regs(elements);
                let s_dest = self.define_reg(*dest);
                SsaInstruction::ArrayLit { dest: s_dest, elements: s_elements }
            },
            Instruction::ArrayRepeat { .. } => SsaInstruction::Other(instruction_debug_text(instr)),
            Instruction::ArraySlice { .. } => SsaInstruction::Other(instruction_debug_text(instr)),
            Instruction::FieldAccess { dest: dest, target: target, field: field } => {
                let s_target = self.current_ssa_reg(*target);
                let s_dest = self.define_reg(*dest);
                SsaInstruction::FieldAccess { dest: s_dest, target: s_target, field: field.clone() }
            },
            Instruction::FieldUpdate { target: target, field: field, src: src } => {
                let s_old_target = self.current_ssa_reg(*target);
                let s_src = self.current_ssa_reg(*src);
                let s_target = self.define_reg(*target);
                SsaInstruction::FieldUpdate { target: s_target, old_target: s_old_target, field: field.clone(), src: s_src }
            },
            Instruction::Syscall { dest: dest, target: target, args: args, duration_ms: duration_ms } => {
                let s_dest = self.define_reg(*dest);
                let s_args = self.current_ssa_regs(args);
                SsaInstruction::Syscall { dest: s_dest, target: target.duplicate(), args: s_args, duration_ms: *duration_ms }
            },
            Instruction::AutoDrop { target: target, spec: spec } => {
                let s_target = self.current_ssa_reg(*target);
                SsaInstruction::AutoDrop { target: s_target, spec: spec.duplicate() }
            },
            Instruction::IndexAccess { dest: dest, target: target, index: index } => {
                let s_target = self.current_ssa_reg(*target);
                let s_index = self.current_ssa_reg(*index);
                let s_dest = self.define_reg(*dest);
                SsaInstruction::IndexAccess { dest: s_dest, target: s_target, index: s_index }
            },
            Instruction::IndexFieldUpdate { target: target, index: index, field: field, src: src } => {
                let s_old_target = self.current_ssa_reg(*target);
                let s_index = self.current_ssa_reg(*index);
                let s_src = self.current_ssa_reg(*src);
                let s_target = self.define_reg(*target);
                SsaInstruction::IndexFieldUpdate { target: s_target, old_target: s_old_target, index: s_index, field: field.clone(), src: s_src }
            },
            Instruction::TypeAssert { dest: dest, src: src, type_label: type_label } => {
                let s_src = self.current_ssa_reg(*src);
                let s_dest = self.define_reg(*dest);
                SsaInstruction::TypeAssert { dest: s_dest, src: s_src, type_label: type_label.clone() }
            },
            Instruction::TypeCast { dest: dest, src: src, target_type: target_type } => {
                let s_src = self.current_ssa_reg(*src);
                let s_dest = self.define_reg(*dest);
                SsaInstruction::TypeCast { dest: s_dest, src: s_src, target_type: target_type.duplicate() }
            },
            Instruction::AssertState { src: src, state: state } => {
                let s_src = self.current_ssa_reg(*src);
                SsaInstruction::AssertState { src: s_src, state: state.clone() }
            },
            Instruction::TryTypeAssert { dest: dest, src: src, type_label: type_label, success: success } => {
                let s_src = self.current_ssa_reg(*src);
                proof { lemma_define_room(self.vstate(), dest.0, 1); }
                let s_dest = self.define_reg(*dest);
                let s_success = self.define_reg(*success);
                SsaInstruction::TryTypeAssert { dest: s_dest, src: s_src, type_label: type_label.clone(), success: s_success }
            },
            Instruction::TryEnumVariant { .. } => SsaInstruction::Other(instruction_debug_text(instr)),
            Instruction::Print { src: src } => {
                let s_src = self.current_ssa_reg(*src);
                SsaInstruction::Print { src: s_src }
            },
            Instruction::Debug { src: src } => {
                let s_src = self.current_ssa_reg(*src);
                SsaInstruction::Debug { src: s_src }
            },
            Instruction::AssertTime { op: op, limit_ms: limit_ms } => SsaInstruction::AssertTime { op: *op, limit_ms: *limit_ms },
            Instruction::Slice { ms: ms } => SsaInstruction::Slice { ms: *ms },
            Instruction::Break => SsaInstruction::Break,
            Instruction::LoopTick => SsaInstruction::LoopTick,
            Instruction::EndLoopTick => SsaInstruction::EndLoopTick,
            Instruction::Capability { cap: cap } => SsaInstruction::Capability { cap: cap.duplicate() },
            Instruction::For { dest_cond: dest_cond, item_reg: item_reg, item_name: item_name, mode: mode, source: source, pacing_ms: pacing_ms, max_ms: max_ms } => {
                proof { lemma_define_room(self.vstate(), dest_cond.0, 1); }
                let s_dest_cond = self.define_reg(*dest_cond);
                let s_item_reg = self.define_reg(*item_reg);
                let s_source = self.current_ssa_reg(*source);
                SsaInstruction::For { dest_cond: s_dest_cond, item_reg: s_item_reg, item_name: item_name.clone(), mode: *mode, source: s_source, pacing_ms: *pacing_ms, max_ms: *max_ms }
            },
            Instruction::EndFor => SsaInstruction::EndFor,
            Instruction::SplitMap { item_reg: item_reg, item_name: item_name, mode: mode, source: source, reconcile: reconcile } => {
                let s_item_reg = self.define_reg(*item_reg);
                let s_source = self.current_ssa_reg(*source);
                SsaInstruction::SplitMap { item_reg: s_item_reg, item_name: item_name.clone(), mode: *mode, source: s_source, reconcile: copy_option_resolution(reconcile) }
            },
            Instruction::EndSplitMap => SsaInstruction::EndSplitMap,
            Instruction::Defer { dest: dest, cap: cap, deadline_ms: deadline_ms } => {
                let s_dest = self.define_reg(*dest);
                SsaInstruction::Defer { dest: s_dest, cap: cap.duplicate(), deadline_ms: *deadline_ms }
            },
            Instruction::Await { target: target } => {
                let s_target = self.current_ssa_reg(*target);
                SsaInstruction::Await { target: s_target }
            },
            Instruction::Loop { max_ms: max_ms } => SsaInstruction::Loop { max_ms: *max_ms },
            Instruction::EndLoop { max_ms: max_ms } => SsaInstruction::EndLoop { max_ms: *max_ms },
            Instruction::LoopTickOn { chan_id: chan_id } => SsaInstruction::LoopTickOn { chan_id: chan_id.clone() },
            Instruction::While { max_ms: max_ms } => SsaInstruction::While { max_ms: *max_ms },
            Instruction::EndWhile { max_ms: max_ms } => SsaInstruction::EndWhile { max_ms: *max_ms },
            Instruction::ForStep { dest_cond: dest_cond, item_reg: item_reg, item_name: item_name, source: source, step_ms: step_ms } => {
                proof { lemma_define_room(self.vstate(), dest_cond.0, 1); }
                let s_dest_cond = self.define_reg(*dest_cond);
                let s_item_reg = self.define_reg(*item_reg);
                let s_source = self.current_ssa_reg(*source);
                SsaInstruction::ForStep { dest_cond: s_dest_cond, item_reg: s_item_reg, item_name: item_name.clone(), source: s_source, step_ms: *step_ms }
            },
            Instruction::EndForStep => SsaInstruction::EndForStep,
            Instruction::ArrayLen { dest: dest, src: src } => {
                let s_dest = self.define_reg(*dest);
                let s_src = self.current_ssa_reg(*src);
                SsaInstruction::ArrayLen { dest: s_dest, src: s_src }
            },
        }
    }
}

pub broadcast proof fn lemma_define_counts(st: VersionState, r: u32, q: u32)
    ensures
        #[trigger] count_of(define(st, r), q) <= count_of(st, q) + 1,
        count_of(st, r) < u32::MAX ==> count_of(define(st, r), q) >= count_of(st, q),
{
}

pub proof fn lemma_define_cases_counts(st: VersionState, cs: Seq<IrSelectCase>)
    requires
        version_room(st, cs.len() as int),
    ensures
        forall|q: u32| #[trigger] count_of(define_cases(st, cs).0, q) <= count_of(st, q) + cs.len(),
        forall|q: u32| #[trigger] count_of(define_cases(st, cs).0, q) >= count_of(st, q),
    decreases cs.len(),
{
    broadcast use lemma_define_counts;
    if cs.len() > 0 {
        lemma_define_cases_counts(st, cs.drop_last());
        let mid = define_cases(st, cs.drop_last()).0;
        assert(count_of(mid, cs.last().dest.0) <= count_of(st, cs.last().dest.0) + cs.len() - 1);
        assert(count_of(st, cs.last().dest.0) + cs.len() <= u32::MAX);
        assert forall|q: u32| #[trigger] count_of(define_cases(st, cs).0, q) <= count_of(st, q) + cs.len() by {
            assert(count_of(mid, q) <= count_of(st, q) + cs.len() - 1);
        }
        assert forall|q: u32| #[trigger] count_of(define_cases(st, cs).0, q) >= count_of(st, q) by {
            assert(count_of(mid, q) >= count_of(st, q));
        }
    }
}

/// Renaming an instruction hands out `defs_of(i)` versions: no counter
/// grows by more, none shrinks.
#[verifier::rlimit(50)]
pub proof fn lemma_renamed_counts(st0: VersionState, i: Instruction, s: SsaInstruction, st1: VersionState)
    requires
        renamed(st0, i, s, st1),
        version_room(st0, defs_of(i)),
    ensures
        forall|q: u32| #[trigger] count_of(st1, q) <= count_of(st0, q) + defs_of(i),
        forall|q: u32| #[trigger] count_of(st1, q) >= count_of(st0, q),
{
    broadcast use lemma_define_counts;
    match i {
        Instruction::Select { cases, .. } => {
            lemma_define_cases_counts(st0, cases@);
        },
        _ => {},
    }
}

pub broadcast proof fn lemma_flat_read_regs(st: VersionState, rs: Seq<Reg>)
    ensures
        #[trigger] flat_seq(read_regs(st, rs)) == rs,
{
    assert(flat_seq(read_regs(st, rs)) =~= rs);
}

pub broadcast proof fn lemma_flat_read_fields(st: VersionState, fs: Seq<(String, Reg)>)
    ensures
        #[trigger] flat_fields(read_fields(st, fs)) == fs,
{
    assert(flat_fields(read_fields(st, fs)) =~= fs);
}

pub broadcast proof fn lemma_flat_define_cases(st: VersionState, cs: Seq<IrSelectCase>)
    ensures
        #[trigger] flat_cases(define_cases(st, cs).1) == cs,
    decreases cs.len(),
{
    if cs.len() > 0 {
        lemma_flat_define_cases(st, cs.drop_last());
        let prev = define_cases(st, cs.drop_last());
        assert(define_cases(st, cs).1 == prev.1.push(SsaSelectCase { chan_id: cs.last().chan_id, dest: fresh_reg(prev.0, cs.last().dest.0), target: cs.last().target }));
        assert(flat_cases(define_cases(st, cs).1) =~= flat_cases(prev.1).push(cs.last()));
        assert(cs.drop_last().push(cs.last()) =~= cs);
    } else {
        assert(flat_cases(define_cases(st, cs).1) =~= cs);
    }
}

/// Renaming keeps an instruction's shape: dropping the versions of a
/// renamed instruction gives back the instruction it came from, unless the
/// renamer kept it only as text.
#[verifier::rlimit(80)]
pub proof fn lemma_renamed_erases(st0: VersionState, i: Instruction, s: SsaInstruction, st1: VersionState)
    requires
        renamed(st0, i, s, st1),
    ensures
        (s is Other) || erases_to(s, i),
{
    broadcast use {lemma_flat_read_regs, lemma_flat_read_fields, lemma_flat_define_cases};
    match i {
        Instruction::BinaryOp { .. } => {
            assert(s is BinaryOp);
            assert(erases_to(s, i));
        },
        Instruction::UnaryOp { .. } => {
            assert(s is UnaryOp);
            assert(erases_to(s, i));
        },
        Instruction::LoadInt { .. } => {
            assert(s is LoadInt);
            assert(erases_to(s, i));
        },
        Instruction::LoadFloat { .. } => {
            assert(s is LoadFloat);
            assert(erases_to(s, i));
        },
        Instruction::LoadBool { .. } => {
            assert(s is LoadBool);
            assert(erases_to(s, i));
        },
        Instruction::LoadString { .. } => {
            assert(s is LoadString);
            assert(erases_to(s, i));
        },
        Instruction::LoadNull { .. } => {
            assert(s is LoadNull);
            assert(erases_to(s, i));
        },
        Instruction::ConstInt { .. } => {
            assert(s is ConstInt);
            assert(erases_to(s, i));
        },
        Instruction::ConstFloat { .. } => {
            assert(s is ConstFloat);
            assert(erases_to(s, i));
        },
        Instruction::ConstBool { .. } => {
            assert(s is ConstBool);
            assert(erases_to(s, i));
        },
        Instruction::ConstString { .. } => {
            assert(s is ConstString);
            assert(erases_to(s, i));
        },
        Instruction::ConstNull { .. } => {
            assert(s is ConstNull);
            assert(erases_to(s, i));
        },
        Instruction::Move { .. } => {
            assert(s is Move);
            assert(erases_to(s, i));
        },
        Instruction::TupleLit { .. } => {
            assert(s is Other);
        },
        Instruction::TupleAccess { .. } => {
            assert(s is Other);
        },
        Instruction::Consume { .. } => {
            assert(s is Consume);
            assert(erases_to(s, i));
        },
        Instruction::ConsumeField { .. } => {
            assert(s is ConsumeField);
            assert(erases_to(s, i));
        },
        Instruction::ConsumeFieldDynamic { .. } => {
            assert(s is ConsumeFieldDynamic);
            assert(erases_to(s, i));
        },
        Instruction::Clone { .. } => {
            assert(s is Clone);
            assert(erases_to(s, i));
        },
        Instruction::StrBytes { .. } => {
            assert(s is StrBytes);
            assert(erases_to(s, i));
        },
        Instruction::ToStr { .. } => {
            assert(s is ToStr);
            assert(erases_to(s, i));
        },
        Instruction::ConditionalSelect { .. } => {
            assert(s is Other);
        },
        Instruction::Jump { .. } => {
            assert(s is Jump);
            assert(erases_to(s, i));
        },
        Instruction::JumpIf { .. } => {
            assert(s is JumpIf);
            assert(erases_to(s, i));
        },
        Instruction::JumpIfNot { .. } => {
            assert(s is JumpIfNot);
            assert(erases_to(s, i));
        },
        Instruction::Call { .. } => {
            assert(s is Call);
            assert(erases_to(s, i));
        },
        Instruction::DynamicCall { .. } => {
            assert(s is DynamicCall);
            assert(erases_to(s, i));
        },
        Instruction::Return { .. } => {
            assert(s is Other);
        },
        Instruction::Isolate { .. } => {
            assert(s is Isolate);
            assert(erases_to(s, i));
        },
        Instruction::EndIsolate => {
            assert(s is EndIsolate);
            assert(erases_to(s, i));
        },
        Instruction::Lease { .. } => {
            assert(s is Lease);
            assert(erases_to(s, i));
        },
        Instruction::EndLease { .. } => {
            assert(s is EndLease);
            assert(erases_to(s, i));
        },
        Instruction::Split { .. } => {
            assert(s is Split);
            assert(erases_to(s, i));
        },
        Instruction::Merge { .. } => {
            assert(s is Merge);
            assert(erases_to(s, i));
        },
        Instruction::Entangle { .. } => {
            assert(s is Entangle);
            assert(erases_to(s, i));
        },
        Instruction::SetEntropyMode { .. } => {
            assert(s is SetEntropyMode);
            assert(erases_to(s, i));
        },
        Instruction::Anchor { .. } => {
            assert(s is Anchor);
            assert(erases_to(s, i));
        },
        Instruction::Rewind { .. } => {
            assert(s is Rewind);
            assert(erases_to(s, i));
        },
        Instruction::Commit { .. } => {
            assert(s is Commit);
            assert(erases_to(s, i));
        },
        Instruction::Watchdog { .. } => {
            assert(s is Watchdog);
            assert(erases_to(s, i));
        },
        Instruction::Speculate { .. } => {
            assert(s is Speculate);
            assert(erases_to(s, i));
        },
        Instruction::EndSpeculate { .. } => {
            assert(s is EndSpeculate);
            assert(erases_to(s, i));
        },
        Instruction::Collapse => {
            assert(s is Collapse);
            assert(erases_to(s, i));
        },
        Instruction::Select { .. } => {
            assert(s is Select);
            assert(erases_to(s, i));
        },
        Instruction::MatchEntropy { .. } => {
            assert(s is MatchEntropy);
            assert(erases_to(s, i));
        },
        Instruction::RelativisticBlock { .. } => {
            assert(s is RelativisticBlock);
            assert(erases_to(s, i));
        },
        Instruction::PeriodicEpoch { .. } => {
            assert(s is Other);
        },
        Instruction::EndPeriodicEpoch { .. } => {
            assert(s is Other);
        },
        Instruction::FreezeBaseWatermark => {
            assert(s is Other);
        },
        Instruction::ResetBaseWatermark => {
            assert(s is Other);
        },
        Instruction::SetSaturationPolicy { .. } => {
            assert(s is Other);
        },
        Instruction::ArenaIntrospect { .. } => {
            assert(s is Other);
        },
        Instruction::CapabilityCheck { .. } => {
            assert(s is Other);
        },
        Instruction::SpeculationMode { .. } => {
            assert(s is SpeculationMode);
            assert(erases_to(s, i));
        },
        Instruction::OpenChan { .. } => {
            assert(s is OpenChan);
            assert(erases_to(s, i));
        },
        Instruction::ChanSend { .. } => {
            assert(s is ChanSend);
            assert(erases_to(s, i));
        },
        Instruction::ChanRecv { .. } => {
            assert(s is ChanRecv);
            assert(erases_to(s, i));
        },
        Instruction::AwaitChan { .. } => {
            assert(s is AwaitChan);
            assert(erases_to(s, i));
        },
        Instruction::StructLit { .. } => {
            assert(s is StructLit);
            assert(erases_to(s, i));
        },
        Instruction::TopologyLit { .. } => {
            assert(s is TopologyLit);
            assert(erases_to(s, i));
        },
        Instruction::ArrayLit { .. } => {
            assert(s is ArrayLit);
            assert(erases_to(s, i));
        },
        Instruction::ArrayRepeat { .. } => {
            assert(s is Other);
        },
        Instruction::ArraySlice { .. } => {
            assert(s is Other);
        },
        Instruction::FieldAccess { .. } => {
            assert(s is FieldAccess);
            assert(erases_to(s, i));
        },
        Instruction::FieldUpdate { .. } => {
            assert(s is FieldUpdate);
            assert(erases_to(s, i));
        },
        Instruction::Syscall { .. } => {
            assert(s is Syscall);
            assert(erases_to(s, i));
        },
        Instruction::AutoDrop { .. } => {
            assert(s is AutoDrop);
            assert(erases_to(s, i));
        },
        Instruction::IndexAccess { .. } => {
            assert(s is IndexAccess);
            assert(erases_to(s, i));
        },
        Instruction::IndexFieldUpdate { .. } => {
            assert(s is IndexFieldUpdate);
            assert(erases_to(s, i));
        },
        Instruction::TypeAssert { .. } => {
            assert(s is TypeAssert);
            assert(erases_to(s, i));
        },
        Instruction::TypeCast { .. } => {
            assert(s is TypeCast);
            assert(erases_to(s, i));
        },
        Instruction::AssertState { .. } => {
            assert(s is AssertState);
            assert(erases_to(s, i));
        },
        Instruction::TryTypeAssert { .. } => {
            assert(s is TryTypeAssert);
            assert(erases_to(s, i));
        },
        Instruction::TryEnumVariant { .. } => {
            assert(s is Other);
        },
        Instruction::Print { .. } => {
            assert(s is Print);
            assert(erases_to(s, i));
        },
        Instruction::Debug { .. } => {
            assert(s is Debug);
            assert(erases_to(s, i));
        },
        Instruction::AssertTime { .. } => {
            assert(s is AssertTime);
            assert(erases_to(s, i));
        },
        Instruction::Slice { .. } => {
            assert(s is Slice);
            assert(erases_to(s, i));
        },
        Instruction::Break => {
            assert(s is Break);
            assert(erases_to(s, i));
        },
        Instruction::LoopTick => {
            assert(s is LoopTick);
            assert(erases_to(s, i));
        },
        Instruction::EndLoopTick => {
            assert(s is EndLoopTick);
            assert(erases_to(s, i));
        },
        Instruction::Capability { .. } => {
            assert(s is Capability);
            assert(erases_to(s, i));
        },
        Instruction::For { .. } => {
            assert(s is For);
            assert(erases_to(s, i));
        },
        Instruction::EndFor => {
            assert(s is EndFor);
            assert(erases_to(s, i));
        },
        Instruction::SplitMap { .. } => {
            assert(s is SplitMap);
            assert(erases_to(s, i));
        },
        Instruction::EndSplitMap => {
            assert(s is EndSplitMap);
            assert(erases_to(s, i));
        },
        Instruction::Defer { .. } => {
            assert(s is Defer);
            assert(erases_to(s, i));
        },
        Instruction::Await { .. } => {
            assert(s is Await);
            assert(erases_to(s, i));
        },
        Instruction::Loop { .. } => {
            assert(s is Loop);
            assert(erases_to(s, i));
        },
        Instruction::EndLoop { .. } => {
            assert(s is EndLoop);
            assert(erases_to(s, i));
        },
        Instruction::LoopTickOn { .. } => {
            assert(s is LoopTickOn);
            assert(erases_to(s, i));
        },
        Instruction::While { .. } => {
            assert(s is While);
            assert(erases_to(s, i));
        },
        Instruction::EndWhile { .. } => {
            assert(s is EndWhile);
            assert(erases_to(s, i));
        },
        Instruction::ForStep { .. } => {
            assert(s is ForStep);
            assert(erases_to(s, i));
        },
        Instruction::EndForStep => {
            assert(s is EndForStep);
            assert(erases_to(s, i));
        },
        Instruction::ArrayLen { .. } => {
            assert(s is ArrayLen);
            assert(erases_to(s, i));
        },
    }
}

} // verus!
