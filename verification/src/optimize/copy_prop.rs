//! Copy propagation: uses of a register that is a plain copy of another are
//! replaced by the register it copies, following chains of copies.

use vstd::prelude::*;
use crate::properties::SsaInstructionProperties;
use std::collections::{HashMap, HashSet};
use crate::ir::{copy_option_string, copy_option_resolution, copy_strings};
use crate::ssa::{SsaReg, SsaCFG, SsaBasicBlock, SsaPhiNode, SsaTerminator, SsaSelectCase, copy_ssa_cases};
use crate::ssa::instruction::{SsaInstruction, same_ssa_instr, spec_ssa_defined_reg, spec_ssa_consumed_regs, append_regs_ssa, append_field_regs_ssa};
use crate::blockmap::{BlockId, BlockMap};
use crate::optimize::OptimizationPass;
use crate::optimize::graph::ssa_term_succs;

verus! {

broadcast use vstd::std_specs::hash::group_hash_axioms;

/// The number that stands for a versioned register in a hash map.
pub open spec fn reg_key(r: SsaReg) -> u64 {
    (r.reg as u64 * 0x1_0000_0000 + r.version as u64) as u64
}

pub proof fn lemma_reg_key_injective(a: SsaReg, b: SsaReg)
    ensures
        reg_key(a) == reg_key(b) ==> a == b,
{
    let x = a.reg as int;
    let y = b.reg as int;
    let u = a.version as int;
    let v = b.version as int;
    assert(x * 0x1_0000_0000 + u < 0x1_0000_0000_0000_0000) by (nonlinear_arith)
        requires
            0 <= x < 0x1_0000_0000,
            0 <= u < 0x1_0000_0000,
    ;
    assert(y * 0x1_0000_0000 + v < 0x1_0000_0000_0000_0000) by (nonlinear_arith)
        requires
            0 <= y < 0x1_0000_0000,
            0 <= v < 0x1_0000_0000,
    ;
    if reg_key(a) == reg_key(b) {
        assert(x * 0x1_0000_0000 + u == y * 0x1_0000_0000 + v);
        assert(x == y && u == v) by (nonlinear_arith)
            requires
                x * 0x1_0000_0000 + u == y * 0x1_0000_0000 + v,
                0 <= u < 0x1_0000_0000,
                0 <= v < 0x1_0000_0000,
                0 <= x,
                0 <= y,
        ;
    }
}

pub fn key_of(r: SsaReg) -> (k: u64)
    ensures
        k == reg_key(r),
{
    assert((r.reg as int) * 0x1_0000_0000 + (r.version as int) < 0x1_0000_0000_0000_0000) by (nonlinear_arith)
        requires
            r.reg < 0x1_0000_0000,
            r.version < 0x1_0000_0000,
    ;
    (r.reg as u64) * 0x1_0000_0000 + (r.version as u64)
}

/// `r` through the copies `m`: what it copies, or itself.
pub open spec fn resolve(m: Map<SsaReg, SsaReg>, r: SsaReg) -> SsaReg {
    if m.contains_key(r) {
        m[r]
    } else {
        r
    }
}

pub open spec fn resolve_opt(m: Map<SsaReg, SsaReg>, o: Option<SsaReg>) -> Option<SsaReg> {
    match o {
        Some(r) => Some(resolve(m, r)),
        None => None,
    }
}

pub open spec fn resolve_seq(m: Map<SsaReg, SsaReg>, s: Seq<SsaReg>) -> Seq<SsaReg> {
    s.map_values(|r: SsaReg| resolve(m, r))
}

pub open spec fn resolve_fields(m: Map<SsaReg, SsaReg>, s: Seq<(String, SsaReg)>) -> Seq<(String, SsaReg)> {
    s.map_values(|p: (String, SsaReg)| (p.0, resolve(m, p.1)))
}

/// A map between versioned registers, with its keys in the order they were
/// first stored.
pub struct CopyMap {
    pub map: HashMap<u64, SsaReg>,
    pub keys: Vec<SsaReg>,
}

impl CopyMap {
    pub open spec fn view(&self) -> Map<SsaReg, SsaReg> {
        Map::new(|r: SsaReg| self.map@.contains_key(reg_key(r)), |r: SsaReg| self.map@[reg_key(r)])
    }

    /// The key list lists each stored register once.
    pub open spec fn wf(&self) -> bool {
        &&& self.keys@.no_duplicates()
        &&& forall|r: SsaReg| #[trigger] self.map@.contains_key(reg_key(r)) <==> self.keys@.contains(r)
    }

    pub fn new() -> (c: Self)
        ensures
            c.wf(),
            c.view() == Map::<SsaReg, SsaReg>::empty(),
            c.keys@.len() == 0,
    {
        let c = CopyMap { map: HashMap::new(), keys: Vec::new() };
        assert(c.view() =~= Map::<SsaReg, SsaReg>::empty());
        c
    }

    pub fn get(&self, r: SsaReg) -> (o: Option<SsaReg>)
        ensures
            o == (if self.view().contains_key(r) { Some(self.view()[r]) } else { None }),
    {
        match self.map.get(&key_of(r)) {
            Some(v) => Some(*v),
            None => None,
        }
    }

    pub fn insert(&mut self, r: SsaReg, v: SsaReg)
        requires
            old(self).wf(),
        ensures
            final(self).wf(),
            final(self).view() == old(self).view().insert(r, v),
            old(self).view().contains_key(r) ==> final(self).keys@ == old(self).keys@,
            !old(self).view().contains_key(r) ==> final(self).keys@ == old(self).keys@.push(r),
    {
        let k = key_of(r);
        if !self.map.contains_key(&k) {
            self.keys.push(r);
        }
        self.map.insert(k, v);
        proof {
            if !old(self).map@.contains_key(k) {
                assert(!old(self).keys@.contains(r));
                assert forall|a: int, b: int| 0 <= a < self.keys@.len() && 0 <= b < self.keys@.len() && a != b implies self.keys@[a] != self.keys@[b] by {
                    if a == self.keys@.len() - 1 {
                        assert(old(self).keys@.contains(self.keys@[b]) || b == a);
                    } else if b == self.keys@.len() - 1 {
                        assert(old(self).keys@[a] == self.keys@[a]);
                    }
                }
            }
            assert forall|q: SsaReg| #[trigger] self.map@.contains_key(reg_key(q)) <==> self.keys@.contains(q) by {
                lemma_reg_key_injective(q, r);
                if q != r {
                    if old(self).keys@.contains(q) {
                        let i = choose|i: int| 0 <= i < old(self).keys@.len() && old(self).keys@[i] == q;
                        assert(self.keys@[i] == q);
                    }
                    if self.keys@.contains(q) && !old(self).keys@.contains(q) {
                        let i = choose|i: int| 0 <= i < self.keys@.len() && self.keys@[i] == q;
                        assert(i < old(self).keys@.len() ==> old(self).keys@[i] == q);
                    }
                } else {
                    if old(self).map@.contains_key(reg_key(r)) {
                        assert(old(self).keys@.contains(r));
                    } else {
                        assert(self.keys@[self.keys@.len() - 1] == r);
                    }
                }
            }
            assert forall|q: SsaReg| self.view().contains_key(q) == old(self).view().insert(r, v).contains_key(q) by {
                lemma_reg_key_injective(q, r);
            }
            assert forall|q: SsaReg| self.view().contains_key(q) implies self.view()[q] == old(self).view().insert(r, v)[q] by {
                lemma_reg_key_injective(q, r);
            }
            assert(self.view() =~= old(self).view().insert(r, v));
        }
    }

    pub fn is_empty(&self) -> (b: bool)
        requires
            self.wf(),
        ensures
            b == (self.keys@.len() == 0),
    {
        self.keys.len() == 0
    }

    pub fn resolve(&self, r: SsaReg) -> (x: SsaReg)
        ensures
            x == resolve(self.view(), r),
    {
        match self.get(r) {
            Some(v) => v,
            None => r,
        }
    }

    pub fn resolve_opt(&self, o: &Option<SsaReg>) -> (x: Option<SsaReg>)
        ensures
            x == resolve_opt(self.view(), *o),
    {
        match o {
            Some(r) => Some(self.resolve(*r)),
            None => None,
        }
    }

    pub fn resolve_regs(&self, v: &Vec<SsaReg>) -> (x: Vec<SsaReg>)
        ensures
            x@ == resolve_seq(self.view(), v@),
    {
        let mut out: Vec<SsaReg> = Vec::new();
        let mut i: usize = 0;
        while i < v.len()
            invariant
                i <= v@.len(),
                out@ == resolve_seq(self.view(), v@.subrange(0, i as int)),
            decreases v@.len() - i,
        {
            out.push(self.resolve(v[i]));
            i = i + 1;
            assert(out@ =~= resolve_seq(self.view(), v@.subrange(0, i as int)));
        }
        assert(v@.subrange(0, v@.len() as int) =~= v@);
        out
    }

    pub fn resolve_field_regs(&self, v: &Vec<(String, SsaReg)>) -> (x: Vec<(String, SsaReg)>)
        ensures
            x@ == resolve_fields(self.view(), v@),
    {
        let mut out: Vec<(String, SsaReg)> = Vec::new();
        let mut i: usize = 0;
        while i < v.len()
            invariant
                i <= v@.len(),
                out@ == resolve_fields(self.view(), v@.subrange(0, i as int)),
            decreases v@.len() - i,
        {
            out.push((v[i].0.clone(), self.resolve(v[i].1)));
            i = i + 1;
            assert(out@ =~= resolve_fields(self.view(), v@.subrange(0, i as int)));
        }
        assert(v@.subrange(0, v@.len() as int) =~= v@);
        out
    }
}

/// `b` is `a` with the operands that copy propagation rewrites replaced
/// through `m`; every other part unchanged.
pub open spec fn cp_rel(a: SsaInstruction, b: SsaInstruction, m: Map<SsaReg, SsaReg>) -> bool {
    match (a, b) {
        (SsaInstruction::BinaryOp { dest: a_dest, op: a_op, left: a_left, right: a_right }, SsaInstruction::BinaryOp { dest: b_dest, op: b_op, left: b_left, right: b_right }) => b_dest == a_dest && b_op == a_op && b_left == resolve(m, a_left) && b_right == resolve(m, a_right),
        (SsaInstruction::UnaryOp { dest: a_dest, op: a_op, src: a_src }, SsaInstruction::UnaryOp { dest: b_dest, op: b_op, src: b_src }) => b_dest == a_dest && b_op == a_op && b_src == resolve(m, a_src),
        (SsaInstruction::Move { dest: a_dest, src: a_src }, SsaInstruction::Move { dest: b_dest, src: b_src }) => b_dest == a_dest && b_src == resolve(m, a_src),
        (SsaInstruction::Consume { src: a_src }, SsaInstruction::Consume { src: b_src }) => b_src == resolve(m, a_src),
        (SsaInstruction::ConsumeField { src: a_src, field: a_field }, SsaInstruction::ConsumeField { src: b_src, field: b_field }) => b_src == resolve(m, a_src) && b_field == a_field,
        (SsaInstruction::ConsumeFieldDynamic { target: a_target, index: a_index }, SsaInstruction::ConsumeFieldDynamic { target: b_target, index: b_index }) => b_target == resolve(m, a_target) && b_index == resolve(m, a_index),
        (SsaInstruction::Clone { dest: a_dest, src: a_src }, SsaInstruction::Clone { dest: b_dest, src: b_src }) => b_dest == a_dest && b_src == resolve(m, a_src),
        (SsaInstruction::StrBytes { dest: a_dest, src: a_src }, SsaInstruction::StrBytes { dest: b_dest, src: b_src }) => b_dest == a_dest && b_src == resolve(m, a_src),
        (SsaInstruction::ToStr { dest: a_dest, src: a_src }, SsaInstruction::ToStr { dest: b_dest, src: b_src }) => b_dest == a_dest && b_src == resolve(m, a_src),
        (SsaInstruction::ConditionalSelect { dest: a_dest, cond: a_cond, true_val: a_true_val, false_val: a_false_val }, SsaInstruction::ConditionalSelect { dest: b_dest, cond: b_cond, true_val: b_true_val, false_val: b_false_val }) => b_dest == a_dest && b_cond == resolve(m, a_cond) && b_true_val == resolve(m, a_true_val) && b_false_val == resolve(m, a_false_val),
        (SsaInstruction::Call { routine: a_routine, args: a_args, dest: a_dest }, SsaInstruction::Call { routine: b_routine, args: b_args, dest: b_dest }) => b_routine == a_routine && b_args@ == resolve_seq(m, a_args@) && b_dest == a_dest,
        (SsaInstruction::DynamicCall { method: a_method, args: a_args, dest: a_dest, budget: a_budget }, SsaInstruction::DynamicCall { method: b_method, args: b_args, dest: b_dest, budget: b_budget }) => b_method == a_method && b_args@ == resolve_seq(m, a_args@) && b_dest == a_dest && b_budget == a_budget,
        (SsaInstruction::TypeAssert { dest: a_dest, src: a_src, type_label: a_type_label }, SsaInstruction::TypeAssert { dest: b_dest, src: b_src, type_label: b_type_label }) => b_dest == a_dest && b_src == resolve(m, a_src) && b_type_label == a_type_label,
        (SsaInstruction::TypeCast { dest: a_dest, src: a_src, target_type: a_target_type }, SsaInstruction::TypeCast { dest: b_dest, src: b_src, target_type: b_target_type }) => b_dest == a_dest && b_src == resolve(m, a_src) && b_target_type == a_target_type,
        (SsaInstruction::TryTypeAssert { dest: a_dest, src: a_src, type_label: a_type_label, success: a_success }, SsaInstruction::TryTypeAssert { dest: b_dest, src: b_src, type_label: b_type_label, success: b_success }) => b_dest == a_dest && b_src == resolve(m, a_src) && b_type_label == a_type_label && b_success == a_success,
        (SsaInstruction::Print { src: a_src }, SsaInstruction::Print { src: b_src }) => b_src == resolve(m, a_src),
        (SsaInstruction::Debug { src: a_src }, SsaInstruction::Debug { src: b_src }) => b_src == resolve(m, a_src),
        (SsaInstruction::Lease { target_reg: a_target_reg, source_reg: a_source_reg, duration_ms: a_duration_ms }, SsaInstruction::Lease { target_reg: b_target_reg, source_reg: b_source_reg, duration_ms: b_duration_ms }) => b_target_reg == resolve(m, a_target_reg) && b_source_reg == resolve(m, a_source_reg) && b_duration_ms == a_duration_ms,
        (SsaInstruction::EndLease { source_reg: a_source_reg, duration_ms: a_duration_ms }, SsaInstruction::EndLease { source_reg: b_source_reg, duration_ms: b_duration_ms }) => b_source_reg == resolve(m, a_source_reg) && b_duration_ms == a_duration_ms,
        (SsaInstruction::Entangle { regs: a_regs }, SsaInstruction::Entangle { regs: b_regs }) => b_regs@ == resolve_seq(m, a_regs@),
        (SsaInstruction::MatchEntropy { target: a_target, valid_target: a_valid_target, decayed_target: a_decayed_target, pending_target: a_pending_target, consumed_target: a_consumed_target }, SsaInstruction::MatchEntropy { target: b_target, valid_target: b_valid_target, decayed_target: b_decayed_target, pending_target: b_pending_target, consumed_target: b_consumed_target }) => b_target == resolve(m, a_target) && b_valid_target == a_valid_target && b_decayed_target == a_decayed_target && b_pending_target == a_pending_target && b_consumed_target == a_consumed_target,
        (SsaInstruction::ChanSend { chan_id: a_chan_id, src: a_src }, SsaInstruction::ChanSend { chan_id: b_chan_id, src: b_src }) => b_chan_id == a_chan_id && b_src == resolve(m, a_src),
        (SsaInstruction::StructLit { dest: a_dest, fields: a_fields, type_label: a_type_label }, SsaInstruction::StructLit { dest: b_dest, fields: b_fields, type_label: b_type_label }) => b_dest == a_dest && b_fields@ == resolve_fields(m, a_fields@) && b_type_label == a_type_label,
        (SsaInstruction::TopologyLit { dest: a_dest, fields: a_fields }, SsaInstruction::TopologyLit { dest: b_dest, fields: b_fields }) => b_dest == a_dest && b_fields@ == resolve_fields(m, a_fields@),
        (SsaInstruction::ArrayLit { dest: a_dest, elements: a_elements }, SsaInstruction::ArrayLit { dest: b_dest, elements: b_elements }) => b_dest == a_dest && b_elements@ == resolve_seq(m, a_elements@),
        (SsaInstruction::ArrayRepeat { dest: a_dest, value: a_value, count: a_count }, SsaInstruction::ArrayRepeat { dest: b_dest, value: b_value, count: b_count }) => b_dest == a_dest && b_value == resolve(m, a_value) && b_count == resolve(m, a_count),
        (SsaInstruction::ArraySlice { dest: a_dest, target: a_target, start: a_start, end: a_end, inclusive: a_inclusive }, SsaInstruction::ArraySlice { dest: b_dest, target: b_target, start: b_start, end: b_end, inclusive: b_inclusive }) => b_dest == a_dest && b_target == resolve(m, a_target) && b_start == resolve_opt(m, a_start) && b_end == resolve_opt(m, a_end) && b_inclusive == a_inclusive,
        (SsaInstruction::FieldAccess { dest: a_dest, target: a_target, field: a_field }, SsaInstruction::FieldAccess { dest: b_dest, target: b_target, field: b_field }) => b_dest == a_dest && b_target == resolve(m, a_target) && b_field == a_field,
        (SsaInstruction::FieldUpdate { target: a_target, old_target: a_old_target, field: a_field, src: a_src }, SsaInstruction::FieldUpdate { target: b_target, old_target: b_old_target, field: b_field, src: b_src }) => b_target == resolve(m, a_target) && b_old_target == a_old_target && b_field == a_field && b_src == resolve(m, a_src),
        (SsaInstruction::IndexAccess { dest: a_dest, target: a_target, index: a_index }, SsaInstruction::IndexAccess { dest: b_dest, target: b_target, index: b_index }) => b_dest == a_dest && b_target == resolve(m, a_target) && b_index == resolve(m, a_index),
        (SsaInstruction::IndexFieldUpdate { target: a_target, old_target: a_old_target, index: a_index, field: a_field, src: a_src }, SsaInstruction::IndexFieldUpdate { target: b_target, old_target: b_old_target, index: b_index, field: b_field, src: b_src }) => b_target == resolve(m, a_target) && b_old_target == a_old_target && b_index == resolve(m, a_index) && b_field == a_field && b_src == resolve(m, a_src),
        (SsaInstruction::For { dest_cond: a_dest_cond, item_reg: a_item_reg, item_name: a_item_name, mode: a_mode, source: a_source, pacing_ms: a_pacing_ms, max_ms: a_max_ms }, SsaInstruction::For { dest_cond: b_dest_cond, item_reg: b_item_reg, item_name: b_item_name, mode: b_mode, source: b_source, pacing_ms: b_pacing_ms, max_ms: b_max_ms }) => b_dest_cond == a_dest_cond && b_item_reg == a_item_reg && b_item_name == a_item_name && b_mode == a_mode && b_source == resolve(m, a_source) && b_pacing_ms == a_pacing_ms && b_max_ms == a_max_ms,
        (SsaInstruction::SplitMap { item_reg: a_item_reg, item_name: a_item_name, mode: a_mode, source: a_source, reconcile: a_reconcile }, SsaInstruction::SplitMap { item_reg: b_item_reg, item_name: b_item_name, mode: b_mode, source: b_source, reconcile: b_reconcile }) => b_item_reg == a_item_reg && b_item_name == a_item_name && b_mode == a_mode && b_source == resolve(m, a_source) && b_reconcile == a_reconcile,
        (SsaInstruction::Await { target: a_target }, SsaInstruction::Await { target: b_target }) => b_target == resolve(m, a_target),
        (SsaInstruction::JumpIf { cond: a_cond, target: a_target }, SsaInstruction::JumpIf { cond: b_cond, target: b_target }) => b_cond == resolve(m, a_cond) && b_target == a_target,
        (SsaInstruction::JumpIfNot { cond: a_cond, target: a_target }, SsaInstruction::JumpIfNot { cond: b_cond, target: b_target }) => b_cond == resolve(m, a_cond) && b_target == a_target,
        (SsaInstruction::ForStep { dest_cond: a_dest_cond, item_reg: a_item_reg, item_name: a_item_name, source: a_source, step_ms: a_step_ms }, SsaInstruction::ForStep { dest_cond: b_dest_cond, item_reg: b_item_reg, item_name: b_item_name, source: b_source, step_ms: b_step_ms }) => b_dest_cond == a_dest_cond && b_item_reg == a_item_reg && b_item_name == a_item_name && b_source == resolve(m, a_source) && b_step_ms == a_step_ms,
        (SsaInstruction::ArrayLen { dest: a_dest, src: a_src }, SsaInstruction::ArrayLen { dest: b_dest, src: b_src }) => b_dest == a_dest && b_src == resolve(m, a_src),
        _ => !(cp_rewrites(a)) && same_ssa_instr(b, a),
    }
}

/// Copy propagation rewrites some operand of `a`.
pub open spec fn cp_rewrites(a: SsaInstruction) -> bool {
    match a {
        SsaInstruction::BinaryOp { .. } => true,
        SsaInstruction::UnaryOp { .. } => true,
        SsaInstruction::Move { .. } => true,
        SsaInstruction::Consume { .. } => true,
        SsaInstruction::ConsumeField { .. } => true,
        SsaInstruction::ConsumeFieldDynamic { .. } => true,
        SsaInstruction::Clone { .. } => true,
        SsaInstruction::StrBytes { .. } => true,
        SsaInstruction::ToStr { .. } => true,
        SsaInstruction::ConditionalSelect { .. } => true,
        SsaInstruction::Call { .. } => true,
        SsaInstruction::DynamicCall { .. } => true,
        SsaInstruction::TypeAssert { .. } => true,
        SsaInstruction::TypeCast { .. } => true,
        SsaInstruction::TryTypeAssert { .. } => true,
        SsaInstruction::Print { .. } => true,
        SsaInstruction::Debug { .. } => true,
        SsaInstruction::Lease { .. } => true,
        SsaInstruction::EndLease { .. } => true,
        SsaInstruction::Entangle { .. } => true,
        SsaInstruction::MatchEntropy { .. } => true,
        SsaInstruction::ChanSend { .. } => true,
        SsaInstruction::StructLit { .. } => true,
        SsaInstruction::TopologyLit { .. } => true,
        SsaInstruction::ArrayLit { .. } => true,
        SsaInstruction::ArrayRepeat { .. } => true,
        SsaInstruction::ArraySlice { .. } => true,
        SsaInstruction::FieldAccess { .. } => true,
        SsaInstruction::FieldUpdate { .. } => true,
        SsaInstruction::IndexAccess { .. } => true,
        SsaInstruction::IndexFieldUpdate { .. } => true,
        SsaInstruction::For { .. } => true,
        SsaInstruction::SplitMap { .. } => true,
        SsaInstruction::Await { .. } => true,
        SsaInstruction::JumpIf { .. } => true,
        SsaInstruction::JumpIfNot { .. } => true,
        SsaInstruction::ForStep { .. } => true,
        SsaInstruction::ArrayLen { .. } => true,
        _ => false,
    }
}

/// Rewrites the operands that copy propagation replaces.
pub fn cp_instr(s: &SsaInstruction, m: &CopyMap) -> (r: SsaInstruction)
    ensures
        cp_rel(*s, r, m.view()),
{
    match s {
        SsaInstruction::BinaryOp { dest: dest, op: op, left: left, right: right } => SsaInstruction::BinaryOp { dest: *dest, op: *op, left: m.resolve(*left), right: m.resolve(*right) },
        SsaInstruction::UnaryOp { dest: dest, op: op, src: src } => SsaInstruction::UnaryOp { dest: *dest, op: *op, src: m.resolve(*src) },
        SsaInstruction::Move { dest: dest, src: src } => SsaInstruction::Move { dest: *dest, src: m.resolve(*src) },
        SsaInstruction::Consume { src: src } => SsaInstruction::Consume { src: m.resolve(*src) },
        SsaInstruction::ConsumeField { src: src, field: field } => SsaInstruction::ConsumeField { src: m.resolve(*src), field: field.clone() },
        SsaInstruction::ConsumeFieldDynamic { target: target, index: index } => SsaInstruction::ConsumeFieldDynamic { target: m.resolve(*target), index: m.resolve(*index) },
        SsaInstruction::Clone { dest: dest, src: src } => SsaInstruction::Clone { dest: *dest, src: m.resolve(*src) },
        SsaInstruction::StrBytes { dest: dest, src: src } => SsaInstruction::StrBytes { dest: *dest, src: m.resolve(*src) },
        SsaInstruction::ToStr { dest: dest, src: src } => SsaInstruction::ToStr { dest: *dest, src: m.resolve(*src) },
        SsaInstruction::ConditionalSelect { dest: dest, cond: cond, true_val: true_val, false_val: false_val } => SsaInstruction::ConditionalSelect { dest: *dest, cond: m.resolve(*cond), true_val: m.resolve(*true_val), false_val: m.resolve(*false_val) },
        SsaInstruction::Call { routine: routine, args: args, dest: dest } => SsaInstruction::Call { routine: routine.clone(), args: m.resolve_regs(args), dest: *dest },
        SsaInstruction::DynamicCall { method: method, args: args, dest: dest, budget: budget } => SsaInstruction::DynamicCall { method: method.clone(), args: m.resolve_regs(args), dest: *dest, budget: *budget },
        SsaInstruction::TypeAssert { dest: dest, src: src, type_label: type_label } => SsaInstruction::TypeAssert { dest: *dest, src: m.resolve(*src), type_label: type_label.clone() },
        SsaInstruction::TypeCast { dest: dest, src: src, target_type: target_type } => SsaInstruction::TypeCast { dest: *dest, src: m.resolve(*src), target_type: target_type.duplicate() },
        SsaInstruction::TryTypeAssert { dest: dest, src: src, type_label: type_label, success: success } => SsaInstruction::TryTypeAssert { dest: *dest, src: m.resolve(*src), type_label: type_label.clone(), success: *success },
        SsaInstruction::Print { src: src } => SsaInstruction::Print { src: m.resolve(*src) },
        SsaInstruction::Debug { src: src } => SsaInstruction::Debug { src: m.resolve(*src) },
        SsaInstruction::Lease { target_reg: target_reg, source_reg: source_reg, duration_ms: duration_ms } => SsaInstruction::Lease { target_reg: m.resolve(*target_reg), source_reg: m.resolve(*source_reg), duration_ms: *duration_ms },
        SsaInstruction::EndLease { source_reg: source_reg, duration_ms: duration_ms } => SsaInstruction::EndLease { source_reg: m.resolve(*source_reg), duration_ms: *duration_ms },
        SsaInstruction::Entangle { regs: regs } => SsaInstruction::Entangle { regs: m.resolve_regs(regs) },
        SsaInstruction::MatchEntropy { target: target, valid_target: valid_target, decayed_target: decayed_target, pending_target: pending_target, consumed_target: consumed_target } => SsaInstruction::MatchEntropy { target: m.resolve(*target), valid_target: *valid_target, decayed_target: *decayed_target, pending_target: *pending_target, consumed_target: *consumed_target },
        SsaInstruction::ChanSend { chan_id: chan_id, src: src } => SsaInstruction::ChanSend { chan_id: chan_id.clone(), src: m.resolve(*src) },
        SsaInstruction::StructLit { dest: dest, fields: fields, type_label: type_label } => SsaInstruction::StructLit { dest: *dest, fields: m.resolve_field_regs(fields), type_label: copy_option_string(type_label) },
        SsaInstruction::TopologyLit { dest: dest, fields: fields } => SsaInstruction::TopologyLit { dest: *dest, fields: m.resolve_field_regs(fields) },
        SsaInstruction::ArrayLit { dest: dest, elements: elements } => SsaInstruction::ArrayLit { dest: *dest, elements: m.resolve_regs(elements) },
        SsaInstruction::ArrayRepeat { dest: dest, value: value, count: count } => SsaInstruction::ArrayRepeat { dest: *dest, value: m.resolve(*value), count: m.resolve(*count) },
        SsaInstruction::ArraySlice { dest: dest, target: target, start: start, end: end, inclusive: inclusive } => SsaInstruction::ArraySlice { dest: *dest, target: m.resolve(*target), start: m.resolve_opt(start), end: m.resolve_opt(end), inclusive: *inclusive },
        SsaInstruction::FieldAccess { dest: dest, target: target, field: field } => SsaInstruction::FieldAccess { dest: *dest, target: m.resolve(*target), field: field.clone() },
        SsaInstruction::FieldUpdate { target: target, old_target: old_target, field: field, src: src } => SsaInstruction::FieldUpdate { target: m.resolve(*target), old_target: *old_target, field: field.clone(), src: m.resolve(*src) },
        SsaInstruction::IndexAccess { dest: dest, target: target, index: index } => SsaInstruction::IndexAccess { dest: *dest, target: m.resolve(*target), index: m.resolve(*index) },
        SsaInstruction::IndexFieldUpdate { target: target, old_target: old_target, index: index, field: field, src: src } => SsaInstruction::IndexFieldUpdate { target: m.resolve(*target), old_target: *old_target, index: m.resolve(*index), field: field.clone(), src: m.resolve(*src) },
        SsaInstruction::For { dest_cond: dest_cond, item_reg: item_reg, item_name: item_name, mode: mode, source: source, pacing_ms: pacing_ms, max_ms: max_ms } => SsaInstruction::For { dest_cond: *dest_cond, item_reg: *item_reg, item_name: item_name.clone(), mode: *mode, source: m.resolve(*source), pacing_ms: *pacing_ms, max_ms: *max_ms },
        SsaInstruction::SplitMap { item_reg: item_reg, item_name: item_name, mode: mode, source: source, reconcile: reconcile } => SsaInstruction::SplitMap { item_reg: *item_reg, item_name: item_name.clone(), mode: *mode, source: m.resolve(*source), reconcile: copy_option_resolution(reconcile) },
        SsaInstruction::Await { target: target } => SsaInstruction::Await { target: m.resolve(*target) },
        SsaInstruction::JumpIf { cond: cond, target: target } => SsaInstruction::JumpIf { cond: m.resolve(*cond), target: *target },
        SsaInstruction::JumpIfNot { cond: cond, target: target } => SsaInstruction::JumpIfNot { cond: m.resolve(*cond), target: *target },
        SsaInstruction::ForStep { dest_cond: dest_cond, item_reg: item_reg, item_name: item_name, source: source, step_ms: step_ms } => SsaInstruction::ForStep { dest_cond: *dest_cond, item_reg: *item_reg, item_name: item_name.clone(), source: m.resolve(*source), step_ms: *step_ms },
        SsaInstruction::ArrayLen { dest: dest, src: src } => SsaInstruction::ArrayLen { dest: *dest, src: m.resolve(*src) },
        _ => s.duplicate(),
    }
}


pub open spec fn opt_reg_seq(o: Option<SsaReg>) -> Seq<SsaReg> {
    match o {
        Some(r) => seq![r],
        None => Seq::empty(),
    }
}

fn push_opt_reg(v: &mut Vec<SsaReg>, o: &Option<SsaReg>)
    ensures
        final(v)@ == old(v)@ + opt_reg_seq(*o),
{
    match o {
        Some(r) => {
            v.push(*r);
        },
        None => {
            assert(old(v)@ + opt_reg_seq(*o) =~= old(v)@);
        },
    }
}

/// The operands copy propagation rewrites, in order.
pub open spec fn cp_operands(a: SsaInstruction) -> Seq<SsaReg> {
    match a {
        SsaInstruction::BinaryOp { left, right, .. } => seq![left] + seq![right],
        SsaInstruction::UnaryOp { src, .. } => seq![src],
        SsaInstruction::Move { src, .. } => seq![src],
        SsaInstruction::Consume { src, .. } => seq![src],
        SsaInstruction::ConsumeField { src, .. } => seq![src],
        SsaInstruction::ConsumeFieldDynamic { target, index, .. } => seq![target] + seq![index],
        SsaInstruction::Clone { src, .. } => seq![src],
        SsaInstruction::StrBytes { src, .. } => seq![src],
        SsaInstruction::ToStr { src, .. } => seq![src],
        SsaInstruction::ConditionalSelect { cond, true_val, false_val, .. } => seq![cond] + seq![true_val] + seq![false_val],
        SsaInstruction::Call { args, .. } => args@,
        SsaInstruction::DynamicCall { args, .. } => args@,
        SsaInstruction::TypeAssert { src, .. } => seq![src],
        SsaInstruction::TypeCast { src, .. } => seq![src],
        SsaInstruction::TryTypeAssert { src, .. } => seq![src],
        SsaInstruction::Print { src, .. } => seq![src],
        SsaInstruction::Debug { src, .. } => seq![src],
        SsaInstruction::Lease { target_reg, source_reg, .. } => seq![target_reg] + seq![source_reg],
        SsaInstruction::EndLease { source_reg, .. } => seq![source_reg],
        SsaInstruction::Entangle { regs, .. } => regs@,
        SsaInstruction::MatchEntropy { target, .. } => seq![target],
        SsaInstruction::ChanSend { src, .. } => seq![src],
        SsaInstruction::StructLit { fields, .. } => fields@.map_values(|p: (String, SsaReg)| p.1),
        SsaInstruction::TopologyLit { fields, .. } => fields@.map_values(|p: (String, SsaReg)| p.1),
        SsaInstruction::ArrayLit { elements, .. } => elements@,
        SsaInstruction::ArrayRepeat { value, count, .. } => seq![value] + seq![count],
        SsaInstruction::ArraySlice { target, start, end, .. } => seq![target] + opt_reg_seq(start) + opt_reg_seq(end),
        SsaInstruction::FieldAccess { target, .. } => seq![target],
        SsaInstruction::FieldUpdate { target, src, .. } => seq![target] + seq![src],
        SsaInstruction::IndexAccess { target, index, .. } => seq![target] + seq![index],
        SsaInstruction::IndexFieldUpdate { target, index, src, .. } => seq![target] + seq![index] + seq![src],
        SsaInstruction::For { source, .. } => seq![source],
        SsaInstruction::SplitMap { source, .. } => seq![source],
        SsaInstruction::Await { target, .. } => seq![target],
        SsaInstruction::JumpIf { cond, .. } => seq![cond],
        SsaInstruction::JumpIfNot { cond, .. } => seq![cond],
        SsaInstruction::ForStep { source, .. } => seq![source],
        SsaInstruction::ArrayLen { src, .. } => seq![src],
        _ => Seq::empty(),
    }
}

pub fn cp_operand_list(a: &SsaInstruction) -> (r: Vec<SsaReg>)
    ensures
        r@ == cp_operands(*a),
{
    let mut r: Vec<SsaReg> = Vec::new();
    match a {
        SsaInstruction::BinaryOp { left, right, .. } => {
            r.push(*left);
            r.push(*right);
        },
        SsaInstruction::UnaryOp { src, .. } => {
            r.push(*src);
        },
        SsaInstruction::Move { src, .. } => {
            r.push(*src);
        },
        SsaInstruction::Consume { src, .. } => {
            r.push(*src);
        },
        SsaInstruction::ConsumeField { src, .. } => {
            r.push(*src);
        },
        SsaInstruction::ConsumeFieldDynamic { target, index, .. } => {
            r.push(*target);
            r.push(*index);
        },
        SsaInstruction::Clone { src, .. } => {
            r.push(*src);
        },
        SsaInstruction::StrBytes { src, .. } => {
            r.push(*src);
        },
        SsaInstruction::ToStr { src, .. } => {
            r.push(*src);
        },
        SsaInstruction::ConditionalSelect { cond, true_val, false_val, .. } => {
            r.push(*cond);
            r.push(*true_val);
            r.push(*false_val);
        },
        SsaInstruction::Call { args, .. } => {
            append_regs_ssa(&mut r, args);
        },
        SsaInstruction::DynamicCall { args, .. } => {
            append_regs_ssa(&mut r, args);
        },
        SsaInstruction::TypeAssert { src, .. } => {
            r.push(*src);
        },
        SsaInstruction::TypeCast { src, .. } => {
            r.push(*src);
        },
        SsaInstruction::TryTypeAssert { src, .. } => {
            r.push(*src);
        },
        SsaInstruction::Print { src, .. } => {
            r.push(*src);
        },
        SsaInstruction::Debug { src, .. } => {
            r.push(*src);
        },
        SsaInstruction::Lease { target_reg, source_reg, .. } => {
            r.push(*target_reg);
            r.push(*source_reg);
        },
        SsaInstruction::EndLease { source_reg, .. } => {
            r.push(*source_reg);
        },
        SsaInstruction::Entangle { regs, .. } => {
            append_regs_ssa(&mut r, regs);
        },
        SsaInstruction::MatchEntropy { target, .. } => {
            r.push(*target);
        },
        SsaInstruction::ChanSend { src, .. } => {
            r.push(*src);
        },
        SsaInstruction::StructLit { fields, .. } => {
            append_field_regs_ssa(&mut r, fields);
        },
        SsaInstruction::TopologyLit { fields, .. } => {
            append_field_regs_ssa(&mut r, fields);
        },
        SsaInstruction::ArrayLit { elements, .. } => {
            append_regs_ssa(&mut r, elements);
        },
        SsaInstruction::ArrayRepeat { value, count, .. } => {
            r.push(*value);
            r.push(*count);
        },
        SsaInstruction::ArraySlice { target, start, end, .. } => {
            r.push(*target);
            push_opt_reg(&mut r, start);
            push_opt_reg(&mut r, end);
        },
        SsaInstruction::FieldAccess { target, .. } => {
            r.push(*target);
        },
        SsaInstruction::FieldUpdate { target, src, .. } => {
            r.push(*target);
            r.push(*src);
        },
        SsaInstruction::IndexAccess { target, index, .. } => {
            r.push(*target);
            r.push(*index);
        },
        SsaInstruction::IndexFieldUpdate { target, index, src, .. } => {
            r.push(*target);
            r.push(*index);
            r.push(*src);
        },
        SsaInstruction::For { source, .. } => {
            r.push(*source);
        },
        SsaInstruction::SplitMap { source, .. } => {
            r.push(*source);
        },
        SsaInstruction::Await { target, .. } => {
            r.push(*target);
        },
        SsaInstruction::JumpIf { cond, .. } => {
            r.push(*cond);
        },
        SsaInstruction::JumpIfNot { cond, .. } => {
            r.push(*cond);
        },
        SsaInstruction::ForStep { source, .. } => {
            r.push(*source);
        },
        SsaInstruction::ArrayLen { src, .. } => {
            r.push(*src);
        },
        _ => {},
    }
    assert(r@ =~= cp_operands(*a));
    r
}

/// The operands of a terminator that copy propagation rewrites.
pub open spec fn cp_term_operands(t: SsaTerminator) -> Seq<SsaReg> {
    match t {
        SsaTerminator::Branch { cond, .. } => seq![cond],
        SsaTerminator::Return { src: Some(r) } => seq![r],
        SsaTerminator::MatchEntropy { target, .. } => seq![target],
        SsaTerminator::Select { cases, .. } => cases@.map_values(|c: SsaSelectCase| c.dest),
        _ => Seq::empty(),
    }
}

/// `b` is terminator `a` with its operands resolved through `m`.
pub open spec fn cp_term(a: SsaTerminator, b: SsaTerminator, m: Map<SsaReg, SsaReg>) -> bool {
    match (a, b) {
        (SsaTerminator::Branch { cond: c1, then_block: t1, else_block: e1 }, SsaTerminator::Branch { cond: c2, then_block: t2, else_block: e2 }) =>
            c2 == resolve(m, c1) && t2 == t1 && e2 == e1,
        (SsaTerminator::Return { src: s1 }, SsaTerminator::Return { src: s2 }) => s2 == resolve_opt(m, s1),
        (
            SsaTerminator::MatchEntropy { target: g1, valid_block: v1, decayed_block: d1, pending_block: p1, consumed_block: k1 },
            SsaTerminator::MatchEntropy { target: g2, valid_block: v2, decayed_block: d2, pending_block: p2, consumed_block: k2 },
        ) => g2 == resolve(m, g1) && v2 == v1 && d2 == d1 && p2 == p1 && k2 == k1,
        (SsaTerminator::Select { max_ms: m1, cases: c1, timeout_block: b1 }, SsaTerminator::Select { max_ms: m2, cases: c2, timeout_block: b2 }) =>
            m2 == m1 && b2 == b1 && c2@.len() == c1@.len() && forall|k: int| 0 <= k < c1@.len() ==> (#[trigger] c2@[k]).chan_id == c1@[k].chan_id
                && c2@[k].target == c1@[k].target && c2@[k].dest == resolve(m, c1@[k].dest),
        (SsaTerminator::Jump { target: a1 }, SsaTerminator::Jump { target: a2 }) => a2 == a1,
        (SsaTerminator::Unreachable, SsaTerminator::Unreachable) => true,
        _ => false,
    }
}

/// `b` is phi node `a` with its incoming values resolved through `m`.
pub open spec fn cp_phi(a: SsaPhiNode, b: SsaPhiNode, m: Map<SsaReg, SsaReg>) -> bool {
    &&& b.dest == a.dest
    &&& b.original_reg == a.original_reg
    &&& b.incoming@ == a.incoming@.map_values(|p: (BlockId, SsaReg)| (p.0, resolve(m, p.1)))
}

pub open spec fn cp_block(a: SsaBasicBlock, b: SsaBasicBlock, m: Map<SsaReg, SsaReg>) -> bool {
    &&& b.id == a.id
    &&& b.phi_nodes@.len() == a.phi_nodes@.len()
    &&& forall|j: int| 0 <= j < a.phi_nodes@.len() ==> cp_phi(a.phi_nodes@[j], #[trigger] b.phi_nodes@[j], m)
    &&& b.instructions@.len() == a.instructions@.len()
    &&& forall|k: int| 0 <= k < a.instructions@.len() ==> cp_rel(a.instructions@[k], #[trigger] b.instructions@[k], m)
    &&& cp_term(a.terminator, b.terminator, m)
}

/// `b` is graph `a` with every rewritten operand resolved through `m`.
pub open spec fn cp_cfg(a: SsaCFG, b: SsaCFG, m: Map<SsaReg, SsaReg>) -> bool {
    &&& b.entry_block == a.entry_block
    &&& b.original_pc_to_block_id@ == a.original_pc_to_block_id@
    &&& b.blocks.entries@.len() == a.blocks.entries@.len()
    &&& forall|i: int| 0 <= i < a.blocks.entries@.len() ==> (#[trigger] b.blocks.entries@[i]).0 == a.blocks.entries@[i].0
        && cp_block(a.blocks.entries@[i].1, b.blocks.entries@[i].1, m)
}

/// `d` is a `Move` of `s` somewhere in the graph.
pub open spec fn has_move(cfg: SsaCFG, d: SsaReg, s: SsaReg) -> bool {
    exists|i: int, j: int|
        0 <= i < cfg.blocks.entries@.len() && 0 <= j < cfg.blocks.entries@[i].1.instructions@.len()
            && #[trigger] cfg.blocks.entries@[i].1.instructions@[j] == (SsaInstruction::Move { dest: d, src: s })
}

/// Some instruction of the graph consumes `r`.
pub open spec fn consumed_in(cfg: SsaCFG, r: SsaReg) -> bool {
    exists|i: int, j: int|
        0 <= i < cfg.blocks.entries@.len() && 0 <= j < cfg.blocks.entries@[i].1.instructions@.len()
            && spec_ssa_consumed_regs(&#[trigger] cfg.blocks.entries@[i].1.instructions@[j]).contains(r)
}

/// The copies the pass may use: each from a `Move` whose source is never
/// consumed and whose destination's register is not kept for other code.
pub open spec fn copies_usable(cfg: SsaCFG, used: Set<u32>, init: Map<SsaReg, SsaReg>) -> bool {
    forall|d: SsaReg| #[trigger] init.contains_key(d) ==> has_move(cfg, d, init[d]) && !consumed_in(cfg, init[d]) && !used.contains(d.reg)
}

/// `d` copies `s` by a `Move` that the pass may use: `s` is never consumed
/// and `d`'s register is not kept for other code.
pub open spec fn usable_move(cfg: SsaCFG, used: Set<u32>, d: SsaReg, s: SsaReg) -> bool {
    has_move(cfg, d, s) && !consumed_in(cfg, s) && !used.contains(d.reg)
}

/// `init` holds exactly the usable copies: each of its entries is one, and
/// every destination of one is among its keys.
pub open spec fn copies_found(cfg: SsaCFG, used: Set<u32>, init: Map<SsaReg, SsaReg>) -> bool {
    &&& copies_usable(cfg, used, init)
    &&& forall|d: SsaReg, s: SsaReg| #[trigger] usable_move(cfg, used, d, s) ==> init.contains_key(d)
}

/// The graph holds no usable copy.
pub open spec fn no_usable_copy(cfg: SsaCFG, used: Set<u32>) -> bool {
    forall|d: SsaReg, s: SsaReg| !#[trigger] usable_move(cfg, used, d, s)
}

/// Some register whose key is `x` is consumed in the graph.
pub open spec fn key_consumed(cfg: SsaCFG, x: u64) -> bool {
    exists|r: SsaReg| reg_key(r) == x && #[trigger] consumed_in(cfg, r)
}

/// `d` copies `s` by a `Move` in one of the first `i` blocks, or among the
/// first `j` instructions of block `i`.
pub open spec fn move_before(cfg: SsaCFG, i: int, j: int, d: SsaReg, s: SsaReg) -> bool {
    ||| exists|i2: int, j2: int|
        0 <= i2 < i && 0 <= j2 < cfg.blocks.entries@[i2].1.instructions@.len()
            && #[trigger] cfg.blocks.entries@[i2].1.instructions@[j2] == (SsaInstruction::Move { dest: d, src: s })
    ||| exists|j2: int| 0 <= j2 < j && #[trigger] cfg.blocks.entries@[i].1.instructions@[j2] == (SsaInstruction::Move { dest: d, src: s })
}

/// `b` is reached from `a` by following `n` copies of `c`.
pub open spec fn copy_chain(c: Map<SsaReg, SsaReg>, a: SsaReg, b: SsaReg, n: nat) -> bool
    decreases n,
{
    if n == 0 {
        a == b
    } else {
        c.contains_key(a) && copy_chain(c, c[a], b, (n - 1) as nat)
    }
}

/// Every register of `cm` is mapped to one it reaches through at least one
/// copy of `init`.
pub open spec fn resolved_from(init: Map<SsaReg, SsaReg>, cm: Map<SsaReg, SsaReg>) -> bool {
    &&& cm.dom() == init.dom()
    &&& forall|k: SsaReg| #[trigger] cm.contains_key(k) ==> exists|n: nat| n >= 1 && #[trigger] copy_chain(init, k, cm[k], n)
}

/// `b` is reached from `a` through copies of `c`.
pub open spec fn chains_to(c: Map<SsaReg, SsaReg>, a: SsaReg, b: SsaReg) -> bool {
    exists|n: nat| #[trigger] copy_chain(c, a, b, n)
}

pub proof fn lemma_chain_concat(c: Map<SsaReg, SsaReg>, a: SsaReg, b: SsaReg, d: SsaReg, n1: nat, n2: nat)
    requires
        copy_chain(c, a, b, n1),
        copy_chain(c, b, d, n2),
    ensures
        copy_chain(c, a, d, n1 + n2),
    decreases n1,
{
    if n1 > 0 {
        lemma_chain_concat(c, c[a], b, d, (n1 - 1) as nat, n2);
        assert((n1 + n2 - 1) as nat == (n1 - 1) as nat + n2);
    }
}

pub proof fn lemma_distinct_within<A>(a: Seq<A>, b: Seq<A>)
    requires
        a.no_duplicates(),
        forall|x: A| a.contains(x) ==> b.contains(x),
    ensures
        a.len() <= b.len(),
{
    a.unique_seq_to_set();
    b.lemma_cardinality_of_set();
    assert(a.to_set().subset_of(b.to_set()));
    vstd::set_lib::lemma_len_subset(a.to_set(), b.to_set());
}

/// `r` reaches itself through at least one copy of `c`.
pub open spec fn on_cycle(c: Map<SsaReg, SsaReg>, r: SsaReg) -> bool {
    exists|n: nat| n >= 1 && #[trigger] copy_chain(c, r, r, n)
}

/// `k` is mapped to the end of its chain of copies: a register that copies
/// nothing, or one on a cycle of copies.
pub open spec fn chain_ended(c: Map<SsaReg, SsaReg>, cm: Map<SsaReg, SsaReg>, k: SsaReg) -> bool {
    !c.contains_key(cm[k]) || on_cycle(c, cm[k])
}

/// Every register of `cm` is mapped to the end of its chain of copies.
pub open spec fn ends_chains(c: Map<SsaReg, SsaReg>, cm: Map<SsaReg, SsaReg>) -> bool {
    forall|k: SsaReg| #[trigger] cm.contains_key(k) ==> chain_ended(c, cm, k)
}

fn reg_list_contains(v: &Vec<SsaReg>, x: SsaReg) -> (r: bool)
    ensures
        r == v@.contains(x),
{
    let mut i: usize = 0;
    while i < v.len()
        invariant
            i <= v@.len(),
            forall|j: int| 0 <= j < i ==> v@[j] != x,
        decreases v@.len() - i,
    {
        if v[i] == x {
            return true;
        }
        i = i + 1;
    }
    false
}

/// Resolves chains: each register of the map is mapped to the end of its
/// chain of copies (or, on a cycle, to where the cycle closes).
fn close_copies(cm: &mut CopyMap, Ghost(init): Ghost<Map<SsaReg, SsaReg>>)
    requires
        old(cm).wf(),
        resolved_from(init, old(cm).view()) || old(cm).view() == init,
        forall|k: SsaReg| #[trigger] old(cm).view().contains_key(k) ==> exists|n: nat| n >= 1 && #[trigger] copy_chain(init, k, old(cm).view()[k], n),
        old(cm).view().dom() == init.dom(),
    ensures
        final(cm).wf(),
        resolved_from(init, final(cm).view()),
        ends_chains(init, final(cm).view()),
        final(cm).keys@ == old(cm).keys@,
{
    let keys = copy_reg_list(&cm.keys);
    let ghost nk = keys@.len();
    let mut ki: usize = 0;
    while ki < keys.len()
        invariant
            keys@ == old(cm).keys@,
            cm.keys@ == old(cm).keys@,
            cm.wf(),
            cm.view().dom() == init.dom(),
            forall|k: SsaReg| #[trigger] cm.view().contains_key(k) ==> exists|n: nat| n >= 1 && #[trigger] copy_chain(init, k, cm.view()[k], n),
            ki <= keys@.len(),
            forall|j: int| 0 <= j < ki ==> chain_ended(init, cm.view(), #[trigger] keys@[j]),
        decreases keys@.len() - ki,
    {
        let mut key = keys[ki];
        let mut path: Vec<SsaReg> = Vec::new();
        path.push(key);
        proof {
            assert(copy_chain(init, key, key, 0));
            assert(chains_to(init, path@[0], key));
        }
        loop
            invariant_except_break
                path@.len() >= 1,
                path@.last() == key,
                path@.no_duplicates(),
                forall|j: int| 0 <= j < path@.len() - 1 ==> cm.keys@.contains(#[trigger] path@[j]),
            invariant
                keys@ == old(cm).keys@,
                cm.keys@ == old(cm).keys@,
                cm.wf(),
                cm.view().dom() == init.dom(),
                forall|k: SsaReg| #[trigger] cm.view().contains_key(k) ==> exists|n: nat| n >= 1 && #[trigger] copy_chain(init, k, cm.view()[k], n),
                forall|j: int| 0 <= j < path@.len() ==> chains_to(init, #[trigger] path@[j], key),
                path@.len() >= 1,
                path@.last() == key,
                path@.no_duplicates(),
                forall|j: int| 0 <= j < path@.len() - 1 ==> cm.keys@.contains(#[trigger] path@[j]),
                forall|j: int| 0 <= j < ki ==> chain_ended(init, cm.view(), #[trigger] keys@[j]),
                ki < keys@.len(),
                path@[0] == keys@[ki as int],
            ensures
                path@.len() >= 1,
                path@.last() == key,
                path@.no_duplicates(),
                forall|j: int| 0 <= j < path@.len() - 1 ==> cm.keys@.contains(#[trigger] path@[j]),
                !init.contains_key(key) || on_cycle(init, key),
                init.contains_key(key) ==> chain_ended(init, cm.view(), key),
            decreases cm.keys@.len() + 1 - path@.len(),
        {
            proof {
                lemma_distinct_within(path@.drop_last(), cm.keys@);
            }
            match cm.get(key) {
                None => break,
                Some(next) => {
                    if reg_list_contains(&path, next) {
                        proof {
                            let n0 = choose|n: nat| n >= 1 && #[trigger] copy_chain(init, key, cm.view()[key], n);
                            let j = choose|j: int| 0 <= j < path@.len() && path@[j] == next;
                            let na = choose|n: nat| #[trigger] copy_chain(init, path@[j], key, n);
                            lemma_chain_concat(init, key, next, key, n0, na);
                            assert(copy_chain(init, key, key, n0 + na));
                            lemma_chain_concat(init, next, key, next, na, n0);
                            assert(copy_chain(init, next, next, na + n0));
                        }
                        break;
                    }
                    proof {
                        assert(cm.view().contains_key(key));
                        let n0 = choose|n: nat| n >= 1 && #[trigger] copy_chain(init, key, cm.view()[key], n);
                        assert forall|j: int| 0 <= j < path@.len() implies chains_to(init, #[trigger] path@[j], next) by {
                            let nj = choose|n: nat| #[trigger] copy_chain(init, path@[j], key, n);
                            lemma_chain_concat(init, path@[j], key, next, nj, n0);
                            assert(copy_chain(init, path@[j], next, nj + n0));
                        }
                        assert(copy_chain(init, next, next, 0));
                        assert(cm.keys@.contains(key));
                        assert forall|x: SsaReg| path@.contains(x) implies cm.keys@.contains(x) by {
                            let j = choose|j: int| 0 <= j < path@.len() && path@[j] == x;
                            if j < path@.len() - 1 {
                                assert(cm.keys@.contains(path@[j]));
                            }
                        }
                        lemma_distinct_within(path@, cm.keys@);
                    }
                    let ghost p0 = path@;
                    path.push(next);
                    key = next;
                    proof {
                        assert forall|j: int| 0 <= j < path@.len() implies chains_to(init, #[trigger] path@[j], key) by {
                            if j < p0.len() {
                                assert(path@[j] == p0[j]);
                                assert(chains_to(init, p0[j], next));
                            } else {
                                assert(copy_chain(init, next, next, 0));
                            }
                        }
                        assert forall|j: int| 0 <= j < path@.len() - 1 implies cm.keys@.contains(#[trigger] path@[j]) by {
                            if j < p0.len() - 1 {
                                assert(path@[j] == p0[j]);
                            } else {
                                assert(path@[j] == p0.last());
                            }
                        }
                        assert forall|a: int, b: int| 0 <= a < path@.len() && 0 <= b < path@.len() && a != b implies path@[a] != path@[b] by {
                            if a == p0.len() {
                                assert(!p0.contains(next));
                                assert(path@[b] == p0[b]);
                            } else if b == p0.len() {
                                assert(!p0.contains(next));
                                assert(path@[a] == p0[a]);
                            } else {
                                assert(path@[a] == p0[a] && path@[b] == p0[b]);
                            }
                        }
                    }
                },
            }
        }
        let mut q: usize = 0;
        while q < path.len()
            invariant
                keys@ == old(cm).keys@,
                cm.keys@ == old(cm).keys@,
                cm.wf(),
                cm.view().dom() == init.dom(),
                forall|k: SsaReg| #[trigger] cm.view().contains_key(k) ==> exists|n: nat| n >= 1 && #[trigger] copy_chain(init, k, cm.view()[k], n),
                forall|j: int| 0 <= j < path@.len() ==> chains_to(init, #[trigger] path@[j], key),
                path@.len() >= 1,
                path@.last() == key,
                path@.no_duplicates(),
                forall|j: int| 0 <= j < path@.len() - 1 ==> cm.keys@.contains(#[trigger] path@[j]),
                q <= path@.len(),
                ki < keys@.len(),
                path@[0] == keys@[ki as int],
                !init.contains_key(key) || on_cycle(init, key),
                init.contains_key(key) ==> chain_ended(init, cm.view(), key),
                forall|j: int| 0 <= j < ki ==> chain_ended(init, cm.view(), #[trigger] keys@[j]),
                forall|j: int| 0 <= j < q ==> path@[j] != key ==> #[trigger] cm.view()[path@[j]] == key,
            decreases path@.len() - q,
        {
            let p = path[q];
            if p != key {
                proof {
                    assert(q < path@.len() - 1) by {
                        if q == path@.len() - 1 {
                            assert(path@[q as int] == path@.last());
                        }
                    }
                    assert(cm.keys@.contains(p));
                    let n = choose|n: nat| #[trigger] copy_chain(init, path@[q as int], key, n);
                    assert(n >= 1);
                }
                let ghost v0 = cm.view();
                cm.insert(p, key);
                proof {
                    assert(cm.view().dom() =~= init.dom());
                    assert forall|k: SsaReg| #[trigger] cm.view().contains_key(k) implies exists|n: nat| n >= 1 && #[trigger] copy_chain(init, k, cm.view()[k], n) by {
                        if k == p {
                            let n = choose|n: nat| #[trigger] copy_chain(init, path@[q as int], key, n);
                            assert(n >= 1);
                            assert(copy_chain(init, k, cm.view()[k], n));
                        } else {
                            assert(v0.contains_key(k));
                            assert(cm.view()[k] == v0[k]);
                        }
                    }
                    if v0.contains_key(key) {
                        assert(cm.view()[key] == v0[key]);
                    }
                    assert forall|j: int| 0 <= j < ki implies chain_ended(init, cm.view(), #[trigger] keys@[j]) by {
                        if keys@[j] != p {
                            assert(v0.contains_key(keys@[j]) ==> cm.view()[keys@[j]] == v0[keys@[j]]);
                        }
                    }
                    assert forall|j: int| 0 <= j < q + 1 && path@[j] != key implies #[trigger] cm.view()[path@[j]] == key by {
                        if path@[j] != p {
                            assert(v0.contains_key(path@[j]) ==> cm.view()[path@[j]] == v0[path@[j]]);
                        }
                    }
                }
            }
            q = q + 1;
        }
        proof {
            let k0 = keys@[ki as int];
            assert(cm.keys@.contains(k0));
            if k0 != key {
                assert(cm.view()[path@[0]] == key);
            }
            assert(chain_ended(init, cm.view(), k0));
        }
        ki = ki + 1;
    }
    proof {
        assert forall|k: SsaReg| #[trigger] cm.view().contains_key(k) implies chain_ended(init, cm.view(), k) by {
            assert(cm.keys@.contains(k));
            let j = choose|j: int| 0 <= j < keys@.len() && keys@[j] == k;
            assert(chain_ended(init, cm.view(), keys@[j]));
        }
    }
}

fn copy_reg_list(v: &Vec<SsaReg>) -> (r: Vec<SsaReg>)
    ensures
        r@ == v@,
{
    let mut r: Vec<SsaReg> = Vec::new();
    let mut i: usize = 0;
    while i < v.len()
        invariant
            i <= v@.len(),
            r@ == v@.subrange(0, i as int),
        decreases v@.len() - i,
    {
        r.push(v[i]);
        i = i + 1;
        assert(r@ =~= v@.subrange(0, i as int));
    }
    assert(v@.subrange(0, v@.len() as int) =~= v@);
    r
}

/// Some register of `s` changes when resolved through `m`.
pub open spec fn seq_changes(m: Map<SsaReg, SsaReg>, s: Seq<SsaReg>) -> bool {
    exists|q: int| 0 <= q < s.len() && resolve(m, #[trigger] s[q]) != s[q]
}

pub open spec fn incoming_regs(p: SsaPhiNode) -> Seq<SsaReg> {
    p.incoming@.map_values(|e: (BlockId, SsaReg)| e.1)
}

/// Some operand of the block changes when resolved through `m`.
pub open spec fn block_changes(a: SsaBasicBlock, m: Map<SsaReg, SsaReg>) -> bool {
    ||| exists|j: int| 0 <= j < a.phi_nodes@.len() && seq_changes(m, incoming_regs(#[trigger] a.phi_nodes@[j]))
    ||| exists|k: int| 0 <= k < a.instructions@.len() && seq_changes(m, cp_operands(#[trigger] a.instructions@[k]))
    ||| seq_changes(m, cp_term_operands(a.terminator))
}

fn any_changed(m: &CopyMap, regs: &Vec<SsaReg>) -> (c: bool)
    ensures
        c == seq_changes(m.view(), regs@),
{
    let mut i: usize = 0;
    while i < regs.len()
        invariant
            i <= regs@.len(),
            forall|q: int| 0 <= q < i ==> resolve(m.view(), #[trigger] regs@[q]) == regs@[q],
        decreases regs@.len() - i,
    {
        if m.resolve(regs[i]) != regs[i] {
            return true;
        }
        i = i + 1;
    }
    false
}

fn cp_phi_exec(p: &SsaPhiNode, m: &CopyMap) -> (r: (SsaPhiNode, bool))
    ensures
        cp_phi(*p, r.0, m.view()),
        r.1 == seq_changes(m.view(), incoming_regs(*p)),
{
    let mut inc: Vec<(BlockId, SsaReg)> = Vec::new();
    let mut regs: Vec<SsaReg> = Vec::new();
    let mut i: usize = 0;
    while i < p.incoming.len()
        invariant
            i <= p.incoming@.len(),
            inc@ == p.incoming@.subrange(0, i as int).map_values(|e: (BlockId, SsaReg)| (e.0, resolve(m.view(), e.1))),
            regs@ == p.incoming@.subrange(0, i as int).map_values(|e: (BlockId, SsaReg)| e.1),
        decreases p.incoming@.len() - i,
    {
        let e = p.incoming[i];
        inc.push((e.0, m.resolve(e.1)));
        regs.push(e.1);
        i = i + 1;
        assert(inc@ =~= p.incoming@.subrange(0, i as int).map_values(|e: (BlockId, SsaReg)| (e.0, resolve(m.view(), e.1))));
        assert(regs@ =~= p.incoming@.subrange(0, i as int).map_values(|e: (BlockId, SsaReg)| e.1));
    }
    assert(p.incoming@.subrange(0, p.incoming@.len() as int) =~= p.incoming@);
    let c = any_changed(m, &regs);
    (SsaPhiNode { dest: p.dest, original_reg: p.original_reg, incoming: inc }, c)
}

fn cp_term_exec(t: &SsaTerminator, m: &CopyMap) -> (r: (SsaTerminator, bool))
    ensures
        cp_term(*t, r.0, m.view()),
        r.1 == seq_changes(m.view(), cp_term_operands(*t)),
{
    let mut ops: Vec<SsaReg> = Vec::new();
    let nt = match t {
        SsaTerminator::Jump { target } => SsaTerminator::Jump { target: *target },
        SsaTerminator::Branch { cond, then_block, else_block } => {
            ops.push(*cond);
            SsaTerminator::Branch { cond: m.resolve(*cond), then_block: *then_block, else_block: *else_block }
        },
        SsaTerminator::Return { src } => {
            match src {
                Some(r) => {
                    ops.push(*r);
                },
                None => {},
            }
            SsaTerminator::Return { src: m.resolve_opt(src) }
        },
        SsaTerminator::MatchEntropy { target, valid_block, decayed_block, pending_block, consumed_block } => {
            ops.push(*target);
            SsaTerminator::MatchEntropy {
                target: m.resolve(*target),
                valid_block: *valid_block,
                decayed_block: *decayed_block,
                pending_block: *pending_block,
                consumed_block: *consumed_block,
            }
        },
        SsaTerminator::Select { max_ms, cases, timeout_block } => {
            let mut cs: Vec<SsaSelectCase> = Vec::new();
            let mut k: usize = 0;
            while k < cases.len()
                invariant
                    k <= cases@.len(),
                    cs@.len() == k,
                    ops@ == cases@.subrange(0, k as int).map_values(|c: SsaSelectCase| c.dest),
                    forall|q: int| 0 <= q < k ==> (#[trigger] cs@[q]).chan_id == cases@[q].chan_id && cs@[q].target == cases@[q].target
                        && cs@[q].dest == resolve(m.view(), cases@[q].dest),
                decreases cases@.len() - k,
            {
                let c = &cases[k];
                cs.push(SsaSelectCase { chan_id: c.chan_id.clone(), dest: m.resolve(c.dest), target: c.target });
                ops.push(c.dest);
                k = k + 1;
                assert(ops@ =~= cases@.subrange(0, k as int).map_values(|c: SsaSelectCase| c.dest));
            }
            assert(cases@.subrange(0, cases@.len() as int) =~= cases@);
            SsaTerminator::Select { max_ms: *max_ms, cases: cs, timeout_block: *timeout_block }
        },
        SsaTerminator::Unreachable => SsaTerminator::Unreachable,
    };
    assert(ops@ =~= cp_term_operands(*t));
    let c = any_changed(m, &ops);
    (nt, c)
}

fn cp_block_exec(b: &SsaBasicBlock, m: &CopyMap) -> (r: (SsaBasicBlock, bool))
    ensures
        cp_block(*b, r.0, m.view()),
        r.1 == block_changes(*b, m.view()),
{
    let mut changed = false;
    let mut phis: Vec<SsaPhiNode> = Vec::new();
    let mut j: usize = 0;
    while j < b.phi_nodes.len()
        invariant
            j <= b.phi_nodes@.len(),
            phis@.len() == j,
            forall|q: int| 0 <= q < j ==> cp_phi(b.phi_nodes@[q], #[trigger] phis@[q], m.view()),
            changed == exists|q: int| 0 <= q < j && seq_changes(m.view(), incoming_regs(#[trigger] b.phi_nodes@[q])),
        decreases b.phi_nodes@.len() - j,
    {
        let (np, c) = cp_phi_exec(&b.phi_nodes[j], m);
        phis.push(np);
        changed = changed || c;
        j = j + 1;
    }
    let ghost c_phi = changed;
    let mut instrs: Vec<SsaInstruction> = Vec::new();
    let mut c_instr = false;
    let mut k: usize = 0;
    while k < b.instructions.len()
        invariant
            k <= b.instructions@.len(),
            instrs@.len() == k,
            forall|q: int| 0 <= q < k ==> cp_rel(b.instructions@[q], #[trigger] instrs@[q], m.view()),
            c_instr == exists|q: int| 0 <= q < k && seq_changes(m.view(), cp_operands(#[trigger] b.instructions@[q])),
        decreases b.instructions@.len() - k,
    {
        let ops = cp_operand_list(&b.instructions[k]);
        let c = any_changed(m, &ops);
        instrs.push(cp_instr(&b.instructions[k], m));
        c_instr = c_instr || c;
        k = k + 1;
    }
    let (t, c_term) = cp_term_exec(&b.terminator, m);
    let nb = SsaBasicBlock { id: b.id, phi_nodes: phis, instructions: instrs, terminator: t };
    (nb, changed || c_instr || c_term)
}

/// Replaces every use of a register that copies another by the register at
/// the end of its chain of copies. Only copies made by `Move` count, and
/// neither one whose source is consumed somewhere nor one whose destination
/// register is kept for other code (`globally_used_regs`). With no such
/// copy the graph is left as it is; the result says whether any operand
/// changed.
pub fn copy_propagation(ssa_cfg: &mut SsaCFG, globally_used_regs: &HashSet<u32>) -> (changed: bool)
    ensures
        (!changed && *final(ssa_cfg) == *old(ssa_cfg) && no_usable_copy(*old(ssa_cfg), globally_used_regs@)) || exists|init: Map<SsaReg, SsaReg>, cm: Map<SsaReg, SsaReg>|
            {
                &&& copies_found(*old(ssa_cfg), globally_used_regs@, init)
                &&& #[trigger] resolved_from(init, cm)
                &&& ends_chains(init, cm)
                &&& cp_cfg(*old(ssa_cfg), *final(ssa_cfg), cm)
                &&& changed == exists|i: int| 0 <= i < old(ssa_cfg).blocks.entries@.len() && block_changes(#[trigger] old(ssa_cfg).blocks.entries@[i].1, cm)
            },
{
    let ghost g = *ssa_cfg;
    let n = ssa_cfg.blocks.entries.len();
    // registers consumed anywhere
    let mut consumed: HashSet<u64> = HashSet::new();
    let mut i: usize = 0;
    while i < n
        invariant
            g == *ssa_cfg,
            n == g.blocks.entries@.len(),
            i <= n,
            forall|r: SsaReg| (exists|i2: int, j2: int| 0 <= i2 < i && 0 <= j2 < g.blocks.entries@[i2].1.instructions@.len()
                && spec_ssa_consumed_regs(&#[trigger] g.blocks.entries@[i2].1.instructions@[j2]).contains(r)) ==> consumed@.contains(reg_key(r)),
            forall|x: u64| #[trigger] consumed@.contains(x) ==> key_consumed(g, x),
        decreases n - i,
    {
        let blk = &ssa_cfg.blocks.entries[i].1;
        let mut j: usize = 0;
        while j < blk.instructions.len()
            invariant
                g == *ssa_cfg,
                n == g.blocks.entries@.len(),
                i < n,
                *blk == g.blocks.entries@[i as int].1,
                j <= blk.instructions@.len(),
                forall|r: SsaReg| (exists|i2: int, j2: int| 0 <= i2 < i && 0 <= j2 < g.blocks.entries@[i2].1.instructions@.len()
                    && spec_ssa_consumed_regs(&#[trigger] g.blocks.entries@[i2].1.instructions@[j2]).contains(r)) ==> consumed@.contains(reg_key(r)),
                forall|r: SsaReg| (exists|j2: int| 0 <= j2 < j
                    && spec_ssa_consumed_regs(&#[trigger] blk.instructions@[j2]).contains(r)) ==> consumed@.contains(reg_key(r)),
                forall|x: u64| #[trigger] consumed@.contains(x) ==> key_consumed(g, x),
            decreases blk.instructions@.len() - j,
        {
            let cs = blk.instructions[j].consumed_ssa_regs();
            let mut q: usize = 0;
            let ghost c0 = consumed@;
            while q < cs.len()
                invariant
                    q <= cs@.len(),
                    forall|x: u64| c0.contains(x) ==> consumed@.contains(x),
                    forall|q2: int| 0 <= q2 < q ==> consumed@.contains(reg_key(#[trigger] cs@[q2])),
                    forall|x: u64| #[trigger] consumed@.contains(x) ==> key_consumed(g, x),
                    cs@ == spec_ssa_consumed_regs(&blk.instructions@[j as int]),
                    g == *ssa_cfg,
                    i < n,
                    n == g.blocks.entries@.len(),
                    *blk == g.blocks.entries@[i as int].1,
                    j < blk.instructions@.len(),
                decreases cs@.len() - q,
            {
                proof {
                    assert(spec_ssa_consumed_regs(&g.blocks.entries@[i as int].1.instructions@[j as int]).contains(cs@[q as int]));
                    assert(consumed_in(g, cs@[q as int]));
                }
                consumed.insert(key_of(cs[q]));
                q = q + 1;
            }
            proof {
                assert forall|r: SsaReg| (exists|j2: int| 0 <= j2 < j + 1
                    && spec_ssa_consumed_regs(&#[trigger] blk.instructions@[j2]).contains(r)) implies consumed@.contains(reg_key(r)) by {
                    let j2 = choose|j2: int| 0 <= j2 < j + 1 && spec_ssa_consumed_regs(&#[trigger] blk.instructions@[j2]).contains(r);
                    if j2 == j {
                        let q2 = choose|q2: int| 0 <= q2 < cs@.len() && cs@[q2] == r;
                        assert(consumed@.contains(reg_key(cs@[q2])));
                    } else {
                        assert(c0.contains(reg_key(r)));
                    }
                }
            }
            j = j + 1;
        }
        proof {
            assert forall|r: SsaReg| (exists|i2: int, j2: int| 0 <= i2 < i + 1 && 0 <= j2 < g.blocks.entries@[i2].1.instructions@.len()
                && spec_ssa_consumed_regs(&#[trigger] g.blocks.entries@[i2].1.instructions@[j2]).contains(r)) implies consumed@.contains(reg_key(r)) by {
                let (i2, j2) = choose|i2: int, j2: int| 0 <= i2 < i + 1 && 0 <= j2 < g.blocks.entries@[i2].1.instructions@.len()
                    && spec_ssa_consumed_regs(&#[trigger] g.blocks.entries@[i2].1.instructions@[j2]).contains(r);
                if i2 == i {
                    assert(spec_ssa_consumed_regs(&blk.instructions@[j2]).contains(r));
                }
            }
        }
        i = i + 1;
    }
    // the usable copies
    let mut cm = CopyMap::new();
    let mut i: usize = 0;
    while i < n
        invariant
            g == *ssa_cfg,
            n == g.blocks.entries@.len(),
            i <= n,
            cm.wf(),
            forall|r: SsaReg| consumed_in(g, r) ==> consumed@.contains(reg_key(r)),
            forall|x: u64| #[trigger] consumed@.contains(x) ==> key_consumed(g, x),
            copies_usable(g, globally_used_regs@, cm.view()),
            forall|d: SsaReg, s: SsaReg| #[trigger] move_before(g, i as int, 0, d, s) && !consumed_in(g, s) && !globally_used_regs@.contains(d.reg) ==> cm.view().contains_key(d),
        decreases n - i,
    {
        let blk = &ssa_cfg.blocks.entries[i].1;
        let mut j: usize = 0;
        while j < blk.instructions.len()
            invariant
                g == *ssa_cfg,
                n == g.blocks.entries@.len(),
                i < n,
                *blk == g.blocks.entries@[i as int].1,
                j <= blk.instructions@.len(),
                cm.wf(),
                forall|r: SsaReg| consumed_in(g, r) ==> consumed@.contains(reg_key(r)),
                forall|x: u64| #[trigger] consumed@.contains(x) ==> key_consumed(g, x),
                copies_usable(g, globally_used_regs@, cm.view()),
                forall|d: SsaReg, s: SsaReg| #[trigger] move_before(g, i as int, j as int, d, s) && !consumed_in(g, s) && !globally_used_regs@.contains(d.reg) ==> cm.view().contains_key(d),
            decreases blk.instructions@.len() - j,
        {
            let ghost v_before = cm.view();
            let ghost ins = g.blocks.entries@[i as int].1.instructions@[j as int];
            match &blk.instructions[j] {
                SsaInstruction::Move { dest, src } => {
                    if !consumed.contains(&key_of(*src)) && !globally_used_regs.contains(&dest.reg) {
                        proof {
                            assert(g.blocks.entries@[i as int].1.instructions@[j as int] == (SsaInstruction::Move { dest: *dest, src: *src }));
                            assert(has_move(g, *dest, *src));
                        }
                        let ghost v0 = cm.view();
                        cm.insert(*dest, *src);
                        proof {
                            assert forall|d: SsaReg| #[trigger] cm.view().contains_key(d) implies has_move(g, d, cm.view()[d]) && !consumed_in(g, cm.view()[d]) && !globally_used_regs@.contains(d.reg) by {
                                if d != *dest {
                                    assert(v0.contains_key(d));
                                }
                            }
                        }
                    } else {
                        proof {
                            if consumed@.contains(reg_key(*src)) {
                                let r = choose|r: SsaReg| reg_key(r) == reg_key(*src) && #[trigger] consumed_in(g, r);
                                lemma_reg_key_injective(r, *src);
                            }
                        }
                    }
                    assert(!consumed_in(g, *src) && !globally_used_regs@.contains(dest.reg) ==> cm.view().contains_key(*dest));
                },
                _ => {},
            }
            proof {
                assert forall|d: SsaReg, s: SsaReg| #[trigger] move_before(g, i as int, j + 1, d, s) && !consumed_in(g, s) && !globally_used_regs@.contains(d.reg) implies cm.view().contains_key(d) by {
                    if ins != (SsaInstruction::Move { dest: d, src: s }) {
                        if exists|j2: int| 0 <= j2 < j + 1 && #[trigger] g.blocks.entries@[i as int].1.instructions@[j2] == (SsaInstruction::Move { dest: d, src: s }) {
                            let j2 = choose|j2: int| 0 <= j2 < j + 1 && #[trigger] g.blocks.entries@[i as int].1.instructions@[j2] == (SsaInstruction::Move { dest: d, src: s });
                            assert(j2 < j);
                        }
                        assert(move_before(g, i as int, j as int, d, s));
                        assert(v_before.contains_key(d));
                    }
                }
            }
            j = j + 1;
        }
        proof {
            assert forall|d: SsaReg, s: SsaReg| #[trigger] move_before(g, i + 1, 0, d, s) && !consumed_in(g, s) && !globally_used_regs@.contains(d.reg) implies cm.view().contains_key(d) by {
                let (i2, j2) = choose|i2: int, j2: int|
                    0 <= i2 < i + 1 && 0 <= j2 < g.blocks.entries@[i2].1.instructions@.len()
                        && #[trigger] g.blocks.entries@[i2].1.instructions@[j2] == (SsaInstruction::Move { dest: d, src: s });
                if i2 == i {
                    assert(move_before(g, i as int, j as int, d, s));
                } else {
                    assert(move_before(g, i as int, j as int, d, s));
                }
            }
        }
        i = i + 1;
    }
    let ghost init = cm.view();
    proof {
        assert forall|d: SsaReg, s: SsaReg| #[trigger] usable_move(g, globally_used_regs@, d, s) implies init.contains_key(d) by {
            let (i2, j2) = choose|i2: int, j2: int|
                0 <= i2 < g.blocks.entries@.len() && 0 <= j2 < g.blocks.entries@[i2].1.instructions@.len()
                    && #[trigger] g.blocks.entries@[i2].1.instructions@[j2] == (SsaInstruction::Move { dest: d, src: s });
            assert(move_before(g, n as int, 0, d, s));
        }
    }
    proof {
        assert forall|k: SsaReg| #[trigger] cm.view().contains_key(k) implies exists|n: nat| n >= 1 && #[trigger] copy_chain(init, k, cm.view()[k], n) by {
            assert(copy_chain(init, init[k], init[k], 0));
            assert(copy_chain(init, k, cm.view()[k], 1));
        }
    }
    close_copies(&mut cm, Ghost(init));
    if cm.is_empty() {
        proof {
            assert forall|d: SsaReg, s: SsaReg| !#[trigger] usable_move(g, globally_used_regs@, d, s) by {
                if usable_move(g, globally_used_regs@, d, s) {
                    assert(init.contains_key(d));
                    assert(cm.view().contains_key(d));
                }
            }
        }
        return false;
    }
    let mut entries: Vec<(BlockId, SsaBasicBlock)> = Vec::new();
    let mut changed = false;
    let mut i: usize = 0;
    while i < n
        invariant
            g == *ssa_cfg,
            n == g.blocks.entries@.len(),
            i <= n,
            entries@.len() == i,
            forall|q: int| 0 <= q < i ==> (#[trigger] entries@[q]).0 == g.blocks.entries@[q].0 && cp_block(g.blocks.entries@[q].1, entries@[q].1, cm.view()),
            changed == exists|q: int| 0 <= q < i && block_changes(#[trigger] g.blocks.entries@[q].1, cm.view()),
        decreases n - i,
    {
        let (nb, c) = cp_block_exec(&ssa_cfg.blocks.entries[i].1, &cm);
        entries.push((ssa_cfg.blocks.entries[i].0, nb));
        changed = changed || c;
        i = i + 1;
    }
    ssa_cfg.blocks = BlockMap { entries };
    proof {
        assert(cp_cfg(g, *ssa_cfg, cm.view()));
        assert(resolved_from(init, cm.view()));
    }
    changed
}

/// Copy propagation (see `copy_propagation`).
pub struct CopyPropagationPass;

impl OptimizationPass for CopyPropagationPass {
    fn name(&self) -> (r: &'static str)
        ensures
            r@ == "CopyPropagation"@,
    {
        "CopyPropagation"
    }

    open spec fn step(&self, before: SsaCFG, after: SsaCFG, globals: Set<u32>, is_routine: bool, changed: bool) -> bool {
        &&& (!changed && after == before && no_usable_copy(before, globals)) || exists|init: Map<SsaReg, SsaReg>, cm: Map<SsaReg, SsaReg>|
            {
                &&& copies_found(before, globals, init)
                &&& #[trigger] resolved_from(init, cm)
                &&& ends_chains(init, cm)
                &&& cp_cfg(before, after, cm)
                &&& changed == exists|i: int| 0 <= i < before.blocks.entries@.len() && block_changes(#[trigger] before.blocks.entries@[i].1, cm)
            }
    }

    fn run(&self, ssa_cfg: &mut SsaCFG, globally_used_regs: &HashSet<u32>, is_routine: bool) -> (changed: bool) {
        let changed = copy_propagation(ssa_cfg, globally_used_regs);
        proof {
            if !(!changed && *ssa_cfg == *old(ssa_cfg) && no_usable_copy(*old(ssa_cfg), globally_used_regs@)) {
                let (init, cm) = choose|init: Map<SsaReg, SsaReg>, cm: Map<SsaReg, SsaReg>| {
                    &&& copies_found(*old(ssa_cfg), globally_used_regs@, init)
                    &&& #[trigger] resolved_from(init, cm)
                    &&& ends_chains(init, cm)
                    &&& cp_cfg(*old(ssa_cfg), *ssa_cfg, cm)
                    &&& changed == exists|i: int| 0 <= i < old(ssa_cfg).blocks.entries@.len() && block_changes(#[trigger] old(ssa_cfg).blocks.entries@[i].1, cm)
                };
                crate::optimize::lemma_same_keys_wf(*old(ssa_cfg), *ssa_cfg);
            }
        }
        changed
    }
}

/// Copy propagation only replaces operands: the rewritten instruction
/// defines what the original defined (unless that register is itself a copy
/// to follow), and reads, position by position, the end of the copy chain
/// of the operand the original read there.
pub proof fn law_copy_operands_in_place(a: SsaInstruction, b: SsaInstruction, m: Map<SsaReg, SsaReg>)
    requires
        cp_rel(a, b, m),
    ensures
        cp_operands(b) == resolve_seq(m, cp_operands(a)),
        spec_ssa_defined_reg(&a) is None || !m.contains_key(spec_ssa_defined_reg(&a).unwrap())
            ==> spec_ssa_defined_reg(&b) == spec_ssa_defined_reg(&a),
{
    match a {
        SsaInstruction::StructLit { fields, .. } => {
            assert(cp_operands(b) =~= resolve_seq(m, cp_operands(a)));
        },
        SsaInstruction::TopologyLit { fields, .. } => {
            assert(cp_operands(b) =~= resolve_seq(m, cp_operands(a)));
        },
        SsaInstruction::ArraySlice { start, end, .. } => {
            assert(cp_operands(b) =~= resolve_seq(m, cp_operands(a)));
        },
        _ => {
            assert(cp_operands(b) =~= resolve_seq(m, cp_operands(a)));
        },
    }
}

/// With no copies to follow, copy propagation leaves every instruction as
/// it is.
pub proof fn law_copy_identity(a: SsaInstruction, b: SsaInstruction, m: Map<SsaReg, SsaReg>)
    requires
        cp_rel(a, b, m),
        forall|r: SsaReg| #[trigger] resolve(m, r) == r,
    ensures
        same_ssa_instr(b, a),
{
    assert forall|s: Seq<SsaReg>| #[trigger] resolve_seq(m, s) == s by {
        assert(resolve_seq(m, s) =~= s);
    }
    assert forall|s: Seq<(String, SsaReg)>| #[trigger] resolve_fields(m, s) == s by {
        assert(resolve_fields(m, s) =~= s);
    }
}

/// Copy propagation never changes where control goes: a terminator keeps
/// its successors in order, and reads, position by position, the end of
/// the copy chain of each operand it read. A phi node keeps its result and
/// the block each incoming value comes from, and takes each incoming value
/// through its copy chain.
pub proof fn law_copy_keeps_control(a: SsaTerminator, b: SsaTerminator, p: SsaPhiNode, q: SsaPhiNode, m: Map<SsaReg, SsaReg>)
    requires
        cp_term(a, b, m),
        cp_phi(p, q, m),
    ensures
        ssa_term_succs(b) == ssa_term_succs(a),
        cp_term_operands(b) == resolve_seq(m, cp_term_operands(a)),
        q.dest == p.dest,
        q.incoming@.len() == p.incoming@.len(),
        forall|k: int| 0 <= k < p.incoming@.len() ==> (#[trigger] q.incoming@[k]).0 == p.incoming@[k].0
            && q.incoming@[k].1 == resolve(m, p.incoming@[k].1),
{
    match a {
        SsaTerminator::Select { cases, .. } => {
            assert(ssa_term_succs(b) =~= ssa_term_succs(a));
            assert(cp_term_operands(b) =~= resolve_seq(m, cp_term_operands(a)));
        },
        _ => {
            assert(ssa_term_succs(b) =~= ssa_term_succs(a));
            assert(cp_term_operands(b) =~= resolve_seq(m, cp_term_operands(a)));
        },
    }
}

} // verus!
