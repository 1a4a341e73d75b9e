//! The instruction set of the flat intermediate representation, with deep
//! copy and the register properties that the passes read.

use vstd::prelude::*;
use crate::properties::InstructionProperties;
use crate::ir::{Reg, BinaryOperator, UnaryOperator, EntropyMode, SpeculationCommitMode, ParamMode, Manifest, MergeResolution, PolicyTarget, SaturationPolicy, ArenaIntrospect, Capability, SyscallTarget, AutoDropSpec, TypeName, IrSelectCase, copy_option_string, copy_option_resolution, copy_regs, copy_strings, copy_reg_fields, copy_select_cases};

verus! {

/// Appends the registers of `v` to `regs`.
pub fn append_regs_flat(regs: &mut Vec<Reg>, v: &Vec<Reg>)
    ensures
        final(regs)@ == old(regs)@ + v@,
{
    let ghost start = regs@;
    let mut i: usize = 0;
    while i < v.len()
        invariant
            i <= v.len(),
            regs@ == start + v@.subrange(0, i as int),
        decreases v.len() - i,
    {
        regs.push(v[i]);
        i = i + 1;
        assert(start + v@.subrange(0, i as int) =~= start + v@.subrange(0, i - 1) + seq![v@[i - 1]]);
    }
    assert(v@.subrange(0, v@.len() as int) =~= v@);
}

/// Appends the registers held by the named fields `v` to `regs`.
pub fn append_field_regs_flat(regs: &mut Vec<Reg>, v: &Vec<(String, Reg)>)
    ensures
        final(regs)@ == old(regs)@ + v@.map_values(|p: (String, Reg)| p.1),
{
    let ghost start = regs@;
    let mut i: usize = 0;
    while i < v.len()
        invariant
            i <= v.len(),
            regs@ == start + v@.subrange(0, i as int).map_values(|p: (String, Reg)| p.1),
        decreases v.len() - i,
    {
        regs.push(v[i].1);
        i = i + 1;
        assert(start + v@.subrange(0, i as int).map_values(|p: (String, Reg)| p.1) =~= start + v@.subrange(0, i - 1).map_values(|p: (String, Reg)| p.1) + seq![v@[i - 1].1]);
    }
    assert(v@.subrange(0, v@.len() as int) =~= v@);
}

/// An instruction of the flat intermediate representation.
#[derive(Debug, Clone, PartialEq, Eq)]
pub enum Instruction {
    BinaryOp {
        dest: Reg,
        op: BinaryOperator,
        left: Reg,
        right: Reg,
    },
    UnaryOp {
        dest: Reg,
        op: UnaryOperator,
        src: Reg,
    },
    LoadInt {
        dest: Reg,
        value: i64,
    },
    LoadFloat {
        dest: Reg,
        value: u64,
    },
    LoadBool {
        dest: Reg,
        value: bool,
    },
    LoadString {
        dest: Reg,
        value: String,
    },
    LoadNull {
        dest: Reg,
    },
    ConstInt {
        dest: Reg,
        value: i64,
    },
    ConstFloat {
        dest: Reg,
        value: u64,
    },
    ConstBool {
        dest: Reg,
        value: bool,
    },
    ConstString {
        dest: Reg,
        value: String,
    },
    ConstNull {
        dest: Reg,
    },
    Move {
        dest: Reg,
        src: Reg,
    },
    TupleLit {
        dest: Reg,
        elems: Vec<Reg>,
    },
    TupleAccess {
        dest: Reg,
        tuple: Reg,
        index: usize,
    },
    Consume {
        src: Reg,
    },
    ConsumeField {
        src: Reg,
        field: String,
    },
    ConsumeFieldDynamic {
        target: Reg,
        index: Reg,
    },
    Clone {
        dest: Reg,
        src: Reg,
    },
    StrBytes {
        dest: Reg,
        src: Reg,
    },
    ToStr {
        dest: Reg,
        src: Reg,
    },
    ConditionalSelect {
        dest: Reg,
        cond: Reg,
        true_val: Reg,
        false_val: Reg,
    },
    Jump {
        target: usize,
    },
    JumpIf {
        cond: Reg,
        target: usize,
    },
    JumpIfNot {
        cond: Reg,
        target: usize,
    },
    Call {
        routine: String,
        args: Vec<Reg>,
        dest: Reg,
    },
    DynamicCall {
        method: String,
        args: Vec<Reg>,
        dest: Reg,
        budget: Option<u64>,
    },
    Return {
        src: Option<Reg>,
    },
    Isolate {
        name: String,
        manifest: Manifest,
    },
    EndIsolate,
    Lease {
        target_reg: Reg,
        source_reg: Reg,
        duration_ms: u64,
    },
    EndLease {
        source_reg: Reg,
        duration_ms: u64,
    },
    Split {
        parent: String,
        branches: Vec<String>,
    },
    Merge {
        branches: Vec<String>,
        target: String,
        resolution: MergeResolution,
    },
    Entangle {
        regs: Vec<Reg>,
    },
    SetEntropyMode {
        mode: EntropyMode,
    },
    Anchor {
        name: String,
    },
    Rewind {
        target: String,
        anchor: String,
    },
    Commit {
        vars: Vec<String>,
    },
    Watchdog {
        target: String,
        timeout_ms: u64,
        recovery_jump: Option<usize>,
    },
    Speculate {
        max_ms: u64,
        fallback_target: usize,
    },
    EndSpeculate {
        max_ms: u64,
        fallback_target: usize,
    },
    Collapse,
    Select {
        max_ms: u64,
        cases: Vec<IrSelectCase>,
        timeout_target: Option<usize>,
    },
    MatchEntropy {
        target: Reg,
        valid_target: Option<usize>,
        decayed_target: Option<usize>,
        pending_target: Option<usize>,
        consumed_target: Option<usize>,
    },
    RelativisticBlock {
        target: String,
        block_pc: usize,
        block_len: usize,
    },
    PeriodicEpoch {
        interval_ms: u64,
        block_pc: usize,
        block_len: usize,
    },
    EndPeriodicEpoch {
        interval_ms: u64,
    },
    FreezeBaseWatermark,
    ResetBaseWatermark,
    SetSaturationPolicy {
        target: PolicyTarget,
        policy: SaturationPolicy,
    },
    ArenaIntrospect {
        dest: Reg,
        kind: ArenaIntrospect,
    },
    CapabilityCheck {
        dest: Reg,
        capability: Capability,
    },
    SpeculationMode {
        mode: SpeculationCommitMode,
    },
    OpenChan {
        name: String,
        capacity: usize,
        decay_after_ms: Option<u64>,
    },
    ChanSend {
        chan_id: String,
        src: Reg,
    },
    ChanRecv {
        dest: Reg,
        chan_id: String,
    },
    AwaitChan {
        chan_id: String,
    },
    StructLit {
        dest: Reg,
        fields: Vec<(String, Reg)>,
        type_label: Option<String>,
    },
    TopologyLit {
        dest: Reg,
        fields: Vec<(String, Reg)>,
    },
    ArrayLit {
        dest: Reg,
        elements: Vec<Reg>,
    },
    ArrayRepeat {
        dest: Reg,
        value: Reg,
        count: Reg,
    },
    ArraySlice {
        dest: Reg,
        target: Reg,
        start: Option<Reg>,
        end: Option<Reg>,
        inclusive: bool,
    },
    FieldAccess {
        dest: Reg,
        target: Reg,
        field: String,
    },
    FieldUpdate {
        target: Reg,
        field: String,
        src: Reg,
    },
    Syscall {
        dest: Reg,
        target: SyscallTarget,
        args: Vec<Reg>,
        duration_ms: Option<u64>,
    },
    AutoDrop {
        target: Reg,
        spec: AutoDropSpec,
    },
    IndexAccess {
        dest: Reg,
        target: Reg,
        index: Reg,
    },
    IndexFieldUpdate {
        target: Reg,
        index: Reg,
        field: String,
        src: Reg,
    },
    TypeAssert {
        dest: Reg,
        src: Reg,
        type_label: String,
    },
    TypeCast {
        dest: Reg,
        src: Reg,
        target_type: TypeName,
    },
    AssertState {
        src: Reg,
        state: String,
    },
    TryTypeAssert {
        dest: Reg,
        src: Reg,
        type_label: String,
        success: Reg,
    },
    TryEnumVariant {
        dest: Reg,
        src: Reg,
        enum_name: Option<String>,
        variant_name: String,
        success: Reg,
    },
    Print {
        src: Reg,
    },
    Debug {
        src: Reg,
    },
    AssertTime {
        op: BinaryOperator,
        limit_ms: u64,
    },
    Slice {
        ms: u64,
    },
    Break,
    LoopTick,
    EndLoopTick,
    Capability {
        cap: Capability,
    },
    For {
        dest_cond: Reg,
        item_reg: Reg,
        item_name: String,
        mode: ParamMode,
        source: Reg,
        pacing_ms: Option<u64>,
        max_ms: Option<u64>,
    },
    EndFor,
    SplitMap {
        item_reg: Reg,
        item_name: String,
        mode: ParamMode,
        source: Reg,
        reconcile: Option<MergeResolution>,
    },
    EndSplitMap,
    Defer {
        dest: Reg,
        cap: Capability,
        deadline_ms: u64,
    },
    Await {
        target: Reg,
    },
    Loop {
        max_ms: u64,
    },
    EndLoop {
        max_ms: u64,
    },
    LoopTickOn {
        chan_id: String,
    },
    While {
        max_ms: u64,
    },
    EndWhile {
        max_ms: u64,
    },
    ForStep {
        dest_cond: Reg,
        item_reg: Reg,
        item_name: String,
        source: Reg,
        step_ms: Option<u64>,
    },
    EndForStep,
    ArrayLen {
        dest: Reg,
        src: Reg,
    },
}

/// Deep equality of two instructions: same variant and equal contents.
pub open spec fn same_instr(a: Instruction, b: Instruction) -> bool {
    match (a, b) {
        (Instruction::BinaryOp { dest: a_dest, op: a_op, left: a_left, right: a_right }, Instruction::BinaryOp { dest: b_dest, op: b_op, left: b_left, right: b_right }) => a_dest == b_dest && a_op == b_op && a_left == b_left && a_right == b_right,
        (Instruction::UnaryOp { dest: a_dest, op: a_op, src: a_src }, Instruction::UnaryOp { dest: b_dest, op: b_op, src: b_src }) => a_dest == b_dest && a_op == b_op && a_src == b_src,
        (Instruction::LoadInt { dest: a_dest, value: a_value }, Instruction::LoadInt { dest: b_dest, value: b_value }) => a_dest == b_dest && a_value == b_value,
        (Instruction::LoadFloat { dest: a_dest, value: a_value }, Instruction::LoadFloat { dest: b_dest, value: b_value }) => a_dest == b_dest && a_value == b_value,
        (Instruction::LoadBool { dest: a_dest, value: a_value }, Instruction::LoadBool { dest: b_dest, value: b_value }) => a_dest == b_dest && a_value == b_value,
        (Instruction::LoadString { dest: a_dest, value: a_value }, Instruction::LoadString { dest: b_dest, value: b_value }) => a_dest == b_dest && a_value == b_value,
        (Instruction::LoadNull { dest: a_dest }, Instruction::LoadNull { dest: b_dest }) => a_dest == b_dest,
        (Instruction::ConstInt { dest: a_dest, value: a_value }, Instruction::ConstInt { dest: b_dest, value: b_value }) => a_dest == b_dest && a_value == b_value,
        (Instruction::ConstFloat { dest: a_dest, value: a_value }, Instruction::ConstFloat { dest: b_dest, value: b_value }) => a_dest == b_dest && a_value == b_value,
        (Instruction::ConstBool { dest: a_dest, value: a_value }, Instruction::ConstBool { dest: b_dest, value: b_value }) => a_dest == b_dest && a_value == b_value,
        (Instruction::ConstString { dest: a_dest, value: a_value }, Instruction::ConstString { dest: b_dest, value: b_value }) => a_dest == b_dest && a_value == b_value,
        (Instruction::ConstNull { dest: a_dest }, Instruction::ConstNull { dest: b_dest }) => a_dest == b_dest,
        (Instruction::Move { dest: a_dest, src: a_src }, Instruction::Move { dest: b_dest, src: b_src }) => a_dest == b_dest && a_src == b_src,
        (Instruction::TupleLit { dest: a_dest, elems: a_elems }, Instruction::TupleLit { dest: b_dest, elems: b_elems }) => a_dest == b_dest && a_elems@ == b_elems@,
        (Instruction::TupleAccess { dest: a_dest, tuple: a_tuple, index: a_index }, Instruction::TupleAccess { dest: b_dest, tuple: b_tuple, index: b_index }) => a_dest == b_dest && a_tuple == b_tuple && a_index == b_index,
        (Instruction::Consume { src: a_src }, Instruction::Consume { src: b_src }) => a_src == b_src,
        (Instruction::ConsumeField { src: a_src, field: a_field }, Instruction::ConsumeField { src: b_src, field: b_field }) => a_src == b_src && a_field == b_field,
        (Instruction::ConsumeFieldDynamic { target: a_target, index: a_index }, Instruction::ConsumeFieldDynamic { target: b_target, index: b_index }) => a_target == b_target && a_index == b_index,
        (Instruction::Clone { dest: a_dest, src: a_src }, Instruction::Clone { dest: b_dest, src: b_src }) => a_dest == b_dest && a_src == b_src,
        (Instruction::StrBytes { dest: a_dest, src: a_src }, Instruction::StrBytes { dest: b_dest, src: b_src }) => a_dest == b_dest && a_src == b_src,
        (Instruction::ToStr { dest: a_dest, src: a_src }, Instruction::ToStr { dest: b_dest, src: b_src }) => a_dest == b_dest && a_src == b_src,
        (Instruction::ConditionalSelect { dest: a_dest, cond: a_cond, true_val: a_true_val, false_val: a_false_val }, Instruction::ConditionalSelect { dest: b_dest, cond: b_cond, true_val: b_true_val, false_val: b_false_val }) => a_dest == b_dest && a_cond == b_cond && a_true_val == b_true_val && a_false_val == b_false_val,
        (Instruction::Jump { target: a_target }, Instruction::Jump { target: b_target }) => a_target == b_target,
        (Instruction::JumpIf { cond: a_cond, target: a_target }, Instruction::JumpIf { cond: b_cond, target: b_target }) => a_cond == b_cond && a_target == b_target,
        (Instruction::JumpIfNot { cond: a_cond, target: a_target }, Instruction::JumpIfNot { cond: b_cond, target: b_target }) => a_cond == b_cond && a_target == b_target,
        (Instruction::Call { routine: a_routine, args: a_args, dest: a_dest }, Instruction::Call { routine: b_routine, args: b_args, dest: b_dest }) => a_routine == b_routine && a_args@ == b_args@ && a_dest == b_dest,
        (Instruction::DynamicCall { method: a_method, args: a_args, dest: a_dest, budget: a_budget }, Instruction::DynamicCall { method: b_method, args: b_args, dest: b_dest, budget: b_budget }) => a_method == b_method && a_args@ == b_args@ && a_dest == b_dest && a_budget == b_budget,
        (Instruction::Return { src: a_src }, Instruction::Return { src: b_src }) => a_src == b_src,
        (Instruction::Isolate { name: a_name, manifest: a_manifest }, Instruction::Isolate { name: b_name, manifest: b_manifest }) => a_name == b_name && a_manifest == b_manifest,
        (Instruction::EndIsolate, Instruction::EndIsolate) => true,
        (Instruction::Lease { target_reg: a_target_reg, source_reg: a_source_reg, duration_ms: a_duration_ms }, Instruction::Lease { target_reg: b_target_reg, source_reg: b_source_reg, duration_ms: b_duration_ms }) => a_target_reg == b_target_reg && a_source_reg == b_source_reg && a_duration_ms == b_duration_ms,
        (Instruction::EndLease { source_reg: a_source_reg, duration_ms: a_duration_ms }, Instruction::EndLease { source_reg: b_source_reg, duration_ms: b_duration_ms }) => a_source_reg == b_source_reg && a_duration_ms == b_duration_ms,
        (Instruction::Split { parent: a_parent, branches: a_branches }, Instruction::Split { parent: b_parent, branches: b_branches }) => a_parent == b_parent && a_branches@ == b_branches@,
        (Instruction::Merge { branches: a_branches, target: a_target, resolution: a_resolution }, Instruction::Merge { branches: b_branches, target: b_target, resolution: b_resolution }) => a_branches@ == b_branches@ && a_target == b_target && a_resolution == b_resolution,
        (Instruction::Entangle { regs: a_regs }, Instruction::Entangle { regs: b_regs }) => a_regs@ == b_regs@,
        (Instruction::SetEntropyMode { mode: a_mode }, Instruction::SetEntropyMode { mode: b_mode }) => a_mode == b_mode,
        (Instruction::Anchor { name: a_name }, Instruction::Anchor { name: b_name }) => a_name == b_name,
        (Instruction::Rewind { target: a_target, anchor: a_anchor }, Instruction::Rewind { target: b_target, anchor: b_anchor }) => a_target == b_target && a_anchor == b_anchor,
        (Instruction::Commit { vars: a_vars }, Instruction::Commit { vars: b_vars }) => a_vars@ == b_vars@,
        (Instruction::Watchdog { target: a_target, timeout_ms: a_timeout_ms, recovery_jump: a_recovery_jump }, Instruction::Watchdog { target: b_target, timeout_ms: b_timeout_ms, recovery_jump: b_recovery_jump }) => a_target == b_target && a_timeout_ms == b_timeout_ms && a_recovery_jump == b_recovery_jump,
        (Instruction::Speculate { max_ms: a_max_ms, fallback_target: a_fallback_target }, Instruction::Speculate { max_ms: b_max_ms, fallback_target: b_fallback_target }) => a_max_ms == b_max_ms && a_fallback_target == b_fallback_target,
        (Instruction::EndSpeculate { max_ms: a_max_ms, fallback_target: a_fallback_target }, Instruction::EndSpeculate { max_ms: b_max_ms, fallback_target: b_fallback_target }) => a_max_ms == b_max_ms && a_fallback_target == b_fallback_target,
        (Instruction::Collapse, Instruction::Collapse) => true,
        (Instruction::Select { max_ms: a_max_ms, cases: a_cases, timeout_target: a_timeout_target }, Instruction::Select { max_ms: b_max_ms, cases: b_cases, timeout_target: b_timeout_target }) => a_max_ms == b_max_ms && a_cases@ == b_cases@ && a_timeout_target == b_timeout_target,
        (Instruction::MatchEntropy { target: a_target, valid_target: a_valid_target, decayed_target: a_decayed_target, pending_target: a_pending_target, consumed_target: a_consumed_target }, Instruction::MatchEntropy { target: b_target, valid_target: b_valid_target, decayed_target: b_decayed_target, pending_target: b_pending_target, consumed_target: b_consumed_target }) => a_target == b_target && a_valid_target == b_valid_target && a_decayed_target == b_decayed_target && a_pending_target == b_pending_target && a_consumed_target == b_consumed_target,
        (Instruction::RelativisticBlock { target: a_target, block_pc: a_block_pc, block_len: a_block_len }, Instruction::RelativisticBlock { target: b_target, block_pc: b_block_pc, block_len: b_block_len }) => a_target == b_target && a_block_pc == b_block_pc && a_block_len == b_block_len,
        (Instruction::PeriodicEpoch { interval_ms: a_interval_ms, block_pc: a_block_pc, block_len: a_block_len }, Instruction::PeriodicEpoch { interval_ms: b_interval_ms, block_pc: b_block_pc, block_len: b_block_len }) => a_interval_ms == b_interval_ms && a_block_pc == b_block_pc && a_block_len == b_block_len,
        (Instruction::EndPeriodicEpoch { interval_ms: a_interval_ms }, Instruction::EndPeriodicEpoch { interval_ms: b_interval_ms }) => a_interval_ms == b_interval_ms,
        (Instruction::FreezeBaseWatermark, Instruction::FreezeBaseWatermark) => true,
        (Instruction::ResetBaseWatermark, Instruction::ResetBaseWatermark) => true,
        (Instruction::SetSaturationPolicy { target: a_target, policy: a_policy }, Instruction::SetSaturationPolicy { target: b_target, policy: b_policy }) => a_target == b_target && a_policy == b_policy,
        (Instruction::ArenaIntrospect { dest: a_dest, kind: a_kind }, Instruction::ArenaIntrospect { dest: b_dest, kind: b_kind }) => a_dest == b_dest && a_kind == b_kind,
        (Instruction::CapabilityCheck { dest: a_dest, capability: a_capability }, Instruction::CapabilityCheck { dest: b_dest, capability: b_capability }) => a_dest == b_dest && a_capability == b_capability,
        (Instruction::SpeculationMode { mode: a_mode }, Instruction::SpeculationMode { mode: b_mode }) => a_mode == b_mode,
        (Instruction::OpenChan { name: a_name, capacity: a_capacity, decay_after_ms: a_decay_after_ms }, Instruction::OpenChan { name: b_name, capacity: b_capacity, decay_after_ms: b_decay_after_ms }) => a_name == b_name && a_capacity == b_capacity && a_decay_after_ms == b_decay_after_ms,
        (Instruction::ChanSend { chan_id: a_chan_id, src: a_src }, Instruction::ChanSend { chan_id: b_chan_id, src: b_src }) => a_chan_id == b_chan_id && a_src == b_src,
        (Instruction::ChanRecv { dest: a_dest, chan_id: a_chan_id }, Instruction::ChanRecv { dest: b_dest, chan_id: b_chan_id }) => a_dest == b_dest && a_chan_id == b_chan_id,
        (Instruction::AwaitChan { chan_id: a_chan_id }, Instruction::AwaitChan { chan_id: b_chan_id }) => a_chan_id == b_chan_id,
        (Instruction::StructLit { dest: a_dest, fields: a_fields, type_label: a_type_label }, Instruction::StructLit { dest: b_dest, fields: b_fields, type_label: b_type_label }) => a_dest == b_dest && a_fields@ == b_fields@ && a_type_label == b_type_label,
        (Instruction::TopologyLit { dest: a_dest, fields: a_fields }, Instruction::TopologyLit { dest: b_dest, fields: b_fields }) => a_dest == b_dest && a_fields@ == b_fields@,
        (Instruction::ArrayLit { dest: a_dest, elements: a_elements }, Instruction::ArrayLit { dest: b_dest, elements: b_elements }) => a_dest == b_dest && a_elements@ == b_elements@,
        (Instruction::ArrayRepeat { dest: a_dest, value: a_value, count: a_count }, Instruction::ArrayRepeat { dest: b_dest, value: b_value, count: b_count }) => a_dest == b_dest && a_value == b_value && a_count == b_count,
        (Instruction::ArraySlice { dest: a_dest, target: a_target, start: a_start, end: a_end, inclusive: a_inclusive }, Instruction::ArraySlice { dest: b_dest, target: b_target, start: b_start, end: b_end, inclusive: b_inclusive }) => a_dest == b_dest && a_target == b_target && a_start == b_start && a_end == b_end && a_inclusive == b_inclusive,
        (Instruction::FieldAccess { dest: a_dest, target: a_target, field: a_field }, Instruction::FieldAccess { dest: b_dest, target: b_target, field: b_field }) => a_dest == b_dest && a_target == b_target && a_field == b_field,
        (Instruction::FieldUpdate { target: a_target, field: a_field, src: a_src }, Instruction::FieldUpdate { target: b_target, field: b_field, src: b_src }) => a_target == b_target && a_field == b_field && a_src == b_src,
        (Instruction::Syscall { dest: a_dest, target: a_target, args: a_args, duration_ms: a_duration_ms }, Instruction::Syscall { dest: b_dest, target: b_target, args: b_args, duration_ms: b_duration_ms }) => a_dest == b_dest && a_target == b_target && a_args@ == b_args@ && a_duration_ms == b_duration_ms,
        (Instruction::AutoDrop { target: a_target, spec: a_spec }, Instruction::AutoDrop { target: b_target, spec: b_spec }) => a_target == b_target && a_spec == b_spec,
        (Instruction::IndexAccess { dest: a_dest, target: a_target, index: a_index }, Instruction::IndexAccess { dest: b_dest, target: b_target, index: b_index }) => a_dest == b_dest && a_target == b_target && a_index == b_index,
        (Instruction::IndexFieldUpdate { target: a_target, index: a_index, field: a_field, src: a_src }, Instruction::IndexFieldUpdate { target: b_target, index: b_index, field: b_field, src: b_src }) => a_target == b_target && a_index == b_index && a_field == b_field && a_src == b_src,
        (Instruction::TypeAssert { dest: a_dest, src: a_src, type_label: a_type_label }, Instruction::TypeAssert { dest: b_dest, src: b_src, type_label: b_type_label }) => a_dest == b_dest && a_src == b_src && a_type_label == b_type_label,
        (Instruction::TypeCast { dest: a_dest, src: a_src, target_type: a_target_type }, Instruction::TypeCast { dest: b_dest, src: b_src, target_type: b_target_type }) => a_dest == b_dest && a_src == b_src && a_target_type == b_target_type,
        (Instruction::AssertState { src: a_src, state: a_state }, Instruction::AssertState { src: b_src, state: b_state }) => a_src == b_src && a_state == b_state,
        (Instruction::TryTypeAssert { dest: a_dest, src: a_src, type_label: a_type_label, success: a_success }, Instruction::TryTypeAssert { dest: b_dest, src: b_src, type_label: b_type_label, success: b_success }) => a_dest == b_dest && a_src == b_src && a_type_label == b_type_label && a_success == b_success,
        (Instruction::TryEnumVariant { dest: a_dest, src: a_src, enum_name: a_enum_name, variant_name: a_variant_name, success: a_success }, Instruction::TryEnumVariant { dest: b_dest, src: b_src, enum_name: b_enum_name, variant_name: b_variant_name, success: b_success }) => a_dest == b_dest && a_src == b_src && a_enum_name == b_enum_name && a_variant_name == b_variant_name && a_success == b_success,
        (Instruction::Print { src: a_src }, Instruction::Print { src: b_src }) => a_src == b_src,
        (Instruction::Debug { src: a_src }, Instruction::Debug { src: b_src }) => a_src == b_src,
        (Instruction::AssertTime { op: a_op, limit_ms: a_limit_ms }, Instruction::AssertTime { op: b_op, limit_ms: b_limit_ms }) => a_op == b_op && a_limit_ms == b_limit_ms,
        (Instruction::Slice { ms: a_ms }, Instruction::Slice { ms: b_ms }) => a_ms == b_ms,
        (Instruction::Break, Instruction::Break) => true,
        (Instruction::LoopTick, Instruction::LoopTick) => true,
        (Instruction::EndLoopTick, Instruction::EndLoopTick) => true,
        (Instruction::Capability { cap: a_cap }, Instruction::Capability { cap: b_cap }) => a_cap == b_cap,
        (Instruction::For { dest_cond: a_dest_cond, item_reg: a_item_reg, item_name: a_item_name, mode: a_mode, source: a_source, pacing_ms: a_pacing_ms, max_ms: a_max_ms }, Instruction::For { dest_cond: b_dest_cond, item_reg: b_item_reg, item_name: b_item_name, mode: b_mode, source: b_source, pacing_ms: b_pacing_ms, max_ms: b_max_ms }) => a_dest_cond == b_dest_cond && a_item_reg == b_item_reg && a_item_name == b_item_name && a_mode == b_mode && a_source == b_source && a_pacing_ms == b_pacing_ms && a_max_ms == b_max_ms,
        (Instruction::EndFor, Instruction::EndFor) => true,
        (Instruction::SplitMap { item_reg: a_item_reg, item_name: a_item_name, mode: a_mode, source: a_source, reconcile: a_reconcile }, Instruction::SplitMap { item_reg: b_item_reg, item_name: b_item_name, mode: b_mode, source: b_source, reconcile: b_reconcile }) => a_item_reg == b_item_reg && a_item_name == b_item_name && a_mode == b_mode && a_source == b_source && a_reconcile == b_reconcile,
        (Instruction::EndSplitMap, Instruction::EndSplitMap) => true,
        (Instruction::Defer { dest: a_dest, cap: a_cap, deadline_ms: a_deadline_ms }, Instruction::Defer { dest: b_dest, cap: b_cap, deadline_ms: b_deadline_ms }) => a_dest == b_dest && a_cap == b_cap && a_deadline_ms == b_deadline_ms,
        (Instruction::Await { target: a_target }, Instruction::Await { target: b_target }) => a_target == b_target,
        (Instruction::Loop { max_ms: a_max_ms }, Instruction::Loop { max_ms: b_max_ms }) => a_max_ms == b_max_ms,
        (Instruction::EndLoop { max_ms: a_max_ms }, Instruction::EndLoop { max_ms: b_max_ms }) => a_max_ms == b_max_ms,
        (Instruction::LoopTickOn { chan_id: a_chan_id }, Instruction::LoopTickOn { chan_id: b_chan_id }) => a_chan_id == b_chan_id,
        (Instruction::While { max_ms: a_max_ms }, Instruction::While { max_ms: b_max_ms }) => a_max_ms == b_max_ms,
        (Instruction::EndWhile { max_ms: a_max_ms }, Instruction::EndWhile { max_ms: b_max_ms }) => a_max_ms == b_max_ms,
        (Instruction::ForStep { dest_cond: a_dest_cond, item_reg: a_item_reg, item_name: a_item_name, source: a_source, step_ms: a_step_ms }, Instruction::ForStep { dest_cond: b_dest_cond, item_reg: b_item_reg, item_name: b_item_name, source: b_source, step_ms: b_step_ms }) => a_dest_cond == b_dest_cond && a_item_reg == b_item_reg && a_item_name == b_item_name && a_source == b_source && a_step_ms == b_step_ms,
        (Instruction::EndForStep, Instruction::EndForStep) => true,
        (Instruction::ArrayLen { dest: a_dest, src: a_src }, Instruction::ArrayLen { dest: b_dest, src: b_src }) => a_dest == b_dest && a_src == b_src,
        _ => false,
    }
}

impl Instruction {
    /// A deep copy of the instruction.
    pub fn duplicate(&self) -> (r: Self)
        ensures
            same_instr(r, *self),
    {
        match self {
            Instruction::BinaryOp { dest: dest, op: op, left: left, right: right } => Instruction::BinaryOp { dest: *dest, op: *op, left: *left, right: *right },
            Instruction::UnaryOp { dest: dest, op: op, src: src } => Instruction::UnaryOp { dest: *dest, op: *op, src: *src },
            Instruction::LoadInt { dest: dest, value: value } => Instruction::LoadInt { dest: *dest, value: *value },
            Instruction::LoadFloat { dest: dest, value: value } => Instruction::LoadFloat { dest: *dest, value: *value },
            Instruction::LoadBool { dest: dest, value: value } => Instruction::LoadBool { dest: *dest, value: *value },
            Instruction::LoadString { dest: dest, value: value } => Instruction::LoadString { dest: *dest, value: value.clone() },
            Instruction::LoadNull { dest: dest } => Instruction::LoadNull { dest: *dest },
            Instruction::ConstInt { dest: dest, value: value } => Instruction::ConstInt { dest: *dest, value: *value },
            Instruction::ConstFloat { dest: dest, value: value } => Instruction::ConstFloat { dest: *dest, value: *value },
            Instruction::ConstBool { dest: dest, value: value } => Instruction::ConstBool { dest: *dest, value: *value },
            Instruction::ConstString { dest: dest, value: value } => Instruction::ConstString { dest: *dest, value: value.clone() },
            Instruction::ConstNull { dest: dest } => Instruction::ConstNull { dest: *dest },
            Instruction::Move { dest: dest, src: src } => Instruction::Move { dest: *dest, src: *src },
            Instruction::TupleLit { dest: dest, elems: elems } => Instruction::TupleLit { dest: *dest, elems: copy_regs(elems) },
            Instruction::TupleAccess { dest: dest, tuple: tuple, index: index } => Instruction::TupleAccess { dest: *dest, tuple: *tuple, index: *index },
            Instruction::Consume { src: src } => Instruction::Consume { src: *src },
            Instruction::ConsumeField { src: src, field: field } => Instruction::ConsumeField { src: *src, field: field.clone() },
            Instruction::ConsumeFieldDynamic { target: target, index: index } => Instruction::ConsumeFieldDynamic { target: *target, index: *index },
            Instruction::Clone { dest: dest, src: src } => Instruction::Clone { dest: *dest, src: *src },
            Instruction::StrBytes { dest: dest, src: src } => Instruction::StrBytes { dest: *dest, src: *src },
            Instruction::ToStr { dest: dest, src: src } => Instruction::ToStr { dest: *dest, src: *src },
            Instruction::ConditionalSelect { dest: dest, cond: cond, true_val: true_val, false_val: false_val } => Instruction::ConditionalSelect { dest: *dest, cond: *cond, true_val: *true_val, false_val: *false_val },
            Instruction::Jump { target: target } => Instruction::Jump { target: *target },
            Instruction::JumpIf { cond: cond, target: target } => Instruction::JumpIf { cond: *cond, target: *target },
            Instruction::JumpIfNot { cond: cond, target: target } => Instruction::JumpIfNot { cond: *cond, target: *target },
            Instruction::Call { routine: routine, args: args, dest: dest } => Instruction::Call { routine: routine.clone(), args: copy_regs(args), dest: *dest },
            Instruction::DynamicCall { method: method, args: args, dest: dest, budget: budget } => Instruction::DynamicCall { method: method.clone(), args: copy_regs(args), dest: *dest, budget: *budget },
            Instruction::Return { src: src } => Instruction::Return { src: *src },
            Instruction::Isolate { name: name, manifest: manifest } => Instruction::Isolate { name: name.clone(), manifest: manifest.duplicate() },
            Instruction::EndIsolate => Instruction::EndIsolate,
            Instruction::Lease { target_reg: target_reg, source_reg: source_reg, duration_ms: duration_ms } => Instruction::Lease { target_reg: *target_reg, source_reg: *source_reg, duration_ms: *duration_ms },
            Instruction::EndLease { source_reg: source_reg, duration_ms: duration_ms } => Instruction::EndLease { source_reg: *source_reg, duration_ms: *duration_ms },
            Instruction::Split { parent: parent, branches: branches } => Instruction::Split { parent: parent.clone(), branches: copy_strings(branches) },
            Instruction::Merge { branches: branches, target: target, resolution: resolution } => Instruction::Merge { branches: copy_strings(branches), target: target.clone(), resolution: resolution.duplicate() },
            Instruction::Entangle { regs: regs } => Instruction::Entangle { regs: copy_regs(regs) },
            Instruction::SetEntropyMode { mode: mode } => Instruction::SetEntropyMode { mode: *mode },
            Instruction::Anchor { name: name } => Instruction::Anchor { name: name.clone() },
            Instruction::Rewind { target: target, anchor: anchor } => Instruction::Rewind { target: target.clone(), anchor: anchor.clone() },
            Instruction::Commit { vars: vars } => Instruction::Commit { vars: copy_strings(vars) },
            Instruction::Watchdog { target: target, timeout_ms: timeout_ms, recovery_jump: recovery_jump } => Instruction::Watchdog { target: target.clone(), timeout_ms: *timeout_ms, recovery_jump: *recovery_jump },
            Instruction::Speculate { max_ms: max_ms, fallback_target: fallback_target } => Instruction::Speculate { max_ms: *max_ms, fallback_target: *fallback_target },
            Instruction::EndSpeculate { max_ms: max_ms, fallback_target: fallback_target } => Instruction::EndSpeculate { max_ms: *max_ms, fallback_target: *fallback_target },
            Instruction::Collapse => Instruction::Collapse,
            Instruction::Select { max_ms: max_ms, cases: cases, timeout_target: timeout_target } => Instruction::Select { max_ms: *max_ms, cases: copy_select_cases(cases), timeout_target: *timeout_target },
            Instruction::MatchEntropy { target: target, valid_target: valid_target, decayed_target: decayed_target, pending_target: pending_target, consumed_target: consumed_target } => Instruction::MatchEntropy { target: *target, valid_target: *valid_target, decayed_target: *decayed_target, pending_target: *pending_target, consumed_target: *consumed_target },
            Instruction::RelativisticBlock { target: target, block_pc: block_pc, block_len: block_len } => Instruction::RelativisticBlock { target: target.clone(), block_pc: *block_pc, block_len: *block_len },
            Instruction::PeriodicEpoch { interval_ms: interval_ms, block_pc: block_pc, block_len: block_len } => Instruction::PeriodicEpoch { interval_ms: *interval_ms, block_pc: *block_pc, block_len: *block_len },
            Instruction::EndPeriodicEpoch { interval_ms: interval_ms } => Instruction::EndPeriodicEpoch { interval_ms: *interval_ms },
            Instruction::FreezeBaseWatermark => Instruction::FreezeBaseWatermark,
            Instruction::ResetBaseWatermark => Instruction::ResetBaseWatermark,
            Instruction::SetSaturationPolicy { target: target, policy: policy } => Instruction::SetSaturationPolicy { target: target.duplicate(), policy: policy.duplicate() },
            Instruction::ArenaIntrospect { dest: dest, kind: kind } => Instruction::ArenaIntrospect { dest: *dest, kind: kind.duplicate() },
            Instruction::CapabilityCheck { dest: dest, capability: capability } => Instruction::CapabilityCheck { dest: *dest, capability: capability.duplicate() },
            Instruction::SpeculationMode { mode: mode } => Instruction::SpeculationMode { mode: *mode },
            Instruction::OpenChan { name: name, capacity: capacity, decay_after_ms: decay_after_ms } => Instruction::OpenChan { name: name.clone(), capacity: *capacity, decay_after_ms: *decay_after_ms },
            Instruction::ChanSend { chan_id: chan_id, src: src } => Instruction::ChanSend { chan_id: chan_id.clone(), src: *src },
            Instruction::ChanRecv { dest: dest, chan_id: chan_id } => Instruction::ChanRecv { dest: *dest, chan_id: chan_id.clone() },
            Instruction::AwaitChan { chan_id: chan_id } => Instruction::AwaitChan { chan_id: chan_id.clone() },
            Instruction::StructLit { dest: dest, fields: fields, type_label: type_label } => Instruction::StructLit { dest: *dest, fields: copy_reg_fields(fields), type_label: copy_option_string(type_label) },
            Instruction::TopologyLit { dest: dest, fields: fields } => Instruction::TopologyLit { dest: *dest, fields: copy_reg_fields(fields) },
            Instruction::ArrayLit { dest: dest, elements: elements } => Instruction::ArrayLit { dest: *dest, elements: copy_regs(elements) },
            Instruction::ArrayRepeat { dest: dest, value: value, count: count } => Instruction::ArrayRepeat { dest: *dest, value: *value, count: *count },
            Instruction::ArraySlice { dest: dest, target: target, start: start, end: end, inclusive: inclusive } => Instruction::ArraySlice { dest: *dest, target: *target, start: *start, end: *end, inclusive: *inclusive },
            Instruction::FieldAccess { dest: dest, target: target, field: field } => Instruction::FieldAccess { dest: *dest, target: *target, field: field.clone() },
            Instruction::FieldUpdate { target: target, field: field, src: src } => Instruction::FieldUpdate { target: *target, field: field.clone(), src: *src },
            Instruction::Syscall { dest: dest, target: target, args: args, duration_ms: duration_ms } => Instruction::Syscall { dest: *dest, target: target.duplicate(), args: copy_regs(args), duration_ms: *duration_ms },
            Instruction::AutoDrop { target: target, spec: spec } => Instruction::AutoDrop { target: *target, spec: spec.duplicate() },
            Instruction::IndexAccess { dest: dest, target: target, index: index } => Instruction::IndexAccess { dest: *dest, target: *target, index: *index },
            Instruction::IndexFieldUpdate { target: target, index: index, field: field, src: src } => Instruction::IndexFieldUpdate { target: *target, index: *index, field: field.clone(), src: *src },
            Instruction::TypeAssert { dest: dest, src: src, type_label: type_label } => Instruction::TypeAssert { dest: *dest, src: *src, type_label: type_label.clone() },
            Instruction::TypeCast { dest: dest, src: src, target_type: target_type } => Instruction::TypeCast { dest: *dest, src: *src, target_type: target_type.duplicate() },
            Instruction::AssertState { src: src, state: state } => Instruction::AssertState { src: *src, state: state.clone() },
            Instruction::TryTypeAssert { dest: dest, src: src, type_label: type_label, success: success } => Instruction::TryTypeAssert { dest: *dest, src: *src, type_label: type_label.clone(), success: *success },
            Instruction::TryEnumVariant { dest: dest, src: src, enum_name: enum_name, variant_name: variant_name, success: success } => Instruction::TryEnumVariant { dest: *dest, src: *src, enum_name: copy_option_string(enum_name), variant_name: variant_name.clone(), success: *success },
            Instruction::Print { src: src } => Instruction::Print { src: *src },
            Instruction::Debug { src: src } => Instruction::Debug { src: *src },
            Instruction::AssertTime { op: op, limit_ms: limit_ms } => Instruction::AssertTime { op: *op, limit_ms: *limit_ms },
            Instruction::Slice { ms: ms } => Instruction::Slice { ms: *ms },
            Instruction::Break => Instruction::Break,
            Instruction::LoopTick => Instruction::LoopTick,
            Instruction::EndLoopTick => Instruction::EndLoopTick,
            Instruction::Capability { cap: cap } => Instruction::Capability { cap: cap.duplicate() },
            Instruction::For { dest_cond: dest_cond, item_reg: item_reg, item_name: item_name, mode: mode, source: source, pacing_ms: pacing_ms, max_ms: max_ms } => Instruction::For { dest_cond: *dest_cond, item_reg: *item_reg, item_name: item_name.clone(), mode: *mode, source: *source, pacing_ms: *pacing_ms, max_ms: *max_ms },
            Instruction::EndFor => Instruction::EndFor,
            Instruction::SplitMap { item_reg: item_reg, item_name: item_name, mode: mode, source: source, reconcile: reconcile } => Instruction::SplitMap { item_reg: *item_reg, item_name: item_name.clone(), mode: *mode, source: *source, reconcile: copy_option_resolution(reconcile) },
            Instruction::EndSplitMap => Instruction::EndSplitMap,
            Instruction::Defer { dest: dest, cap: cap, deadline_ms: deadline_ms } => Instruction::Defer { dest: *dest, cap: cap.duplicate(), deadline_ms: *deadline_ms },
            Instruction::Await { target: target } => Instruction::Await { target: *target },
            Instruction::Loop { max_ms: max_ms } => Instruction::Loop { max_ms: *max_ms },
            Instruction::EndLoop { max_ms: max_ms } => Instruction::EndLoop { max_ms: *max_ms },
            Instruction::LoopTickOn { chan_id: chan_id } => Instruction::LoopTickOn { chan_id: chan_id.clone() },
            Instruction::While { max_ms: max_ms } => Instruction::While { max_ms: *max_ms },
            Instruction::EndWhile { max_ms: max_ms } => Instruction::EndWhile { max_ms: *max_ms },
            Instruction::ForStep { dest_cond: dest_cond, item_reg: item_reg, item_name: item_name, source: source, step_ms: step_ms } => Instruction::ForStep { dest_cond: *dest_cond, item_reg: *item_reg, item_name: item_name.clone(), source: *source, step_ms: *step_ms },
            Instruction::EndForStep => Instruction::EndForStep,
            Instruction::ArrayLen { dest: dest, src: src } => Instruction::ArrayLen { dest: *dest, src: *src },
        }
    }
}

/// The register that the instruction defines, if any.
pub open spec fn spec_defined_reg(i: &Instruction) -> Option<Reg> {
    match i {
        Instruction::BinaryOp { dest, .. } => Some(*dest),
        Instruction::UnaryOp { dest, .. } => Some(*dest),
        Instruction::LoadInt { dest, .. } => Some(*dest),
        Instruction::LoadFloat { dest, .. } => Some(*dest),
        Instruction::LoadBool { dest, .. } => Some(*dest),
        Instruction::LoadString { dest, .. } => Some(*dest),
        Instruction::LoadNull { dest, .. } => Some(*dest),
        Instruction::ConstInt { dest, .. } => Some(*dest),
        Instruction::ConstFloat { dest, .. } => Some(*dest),
        Instruction::ConstBool { dest, .. } => Some(*dest),
        Instruction::ConstString { dest, .. } => Some(*dest),
        Instruction::ConstNull { dest, .. } => Some(*dest),
        Instruction::Move { dest, .. } => Some(*dest),
        Instruction::Clone { dest, .. } => Some(*dest),
        Instruction::StrBytes { dest, .. } => Some(*dest),
        Instruction::ToStr { dest, .. } => Some(*dest),
        Instruction::ArrayLen { dest, .. } => Some(*dest),
        Instruction::Call { dest, .. } => Some(*dest),
        Instruction::DynamicCall { dest, .. } => Some(*dest),
        Instruction::TypeAssert { dest, .. } => Some(*dest),
        Instruction::TypeCast { dest, .. } => Some(*dest),
        Instruction::TryTypeAssert { dest, .. } => Some(*dest),
        Instruction::TryEnumVariant { dest, .. } => Some(*dest),
        Instruction::StructLit { dest, .. } => Some(*dest),
        Instruction::TopologyLit { dest, .. } => Some(*dest),
        Instruction::ArrayLit { dest, .. } => Some(*dest),
        Instruction::ArrayRepeat { dest, .. } => Some(*dest),
        Instruction::ArraySlice { dest, .. } => Some(*dest),
        Instruction::FieldAccess { dest, .. } => Some(*dest),
        Instruction::IndexAccess { dest, .. } => Some(*dest),
        Instruction::ChanRecv { dest, .. } => Some(*dest),
        Instruction::ConditionalSelect { dest, .. } => Some(*dest),
        Instruction::Defer { dest, .. } => Some(*dest),
        Instruction::Syscall { dest, .. } => Some(*dest),
        Instruction::ArenaIntrospect { dest, .. } => Some(*dest),
        Instruction::CapabilityCheck { dest, .. } => Some(*dest),
        Instruction::Lease { target_reg, .. } => Some(*target_reg),
        Instruction::For { dest_cond, .. } => Some(*dest_cond),
        Instruction::ForStep { dest_cond, .. } => Some(*dest_cond),
        Instruction::SplitMap { item_reg, .. } => Some(*item_reg),
        Instruction::FieldUpdate { target, .. } => Some(*target),
        Instruction::IndexFieldUpdate { target, .. } => Some(*target),
        _ => None,
    }
}
/// The registers that the instruction reads, in operand order.
pub open spec fn spec_used_regs(i: &Instruction) -> Seq<Reg> {
    match i {
        Instruction::BinaryOp { left, right, .. } => seq![*left] + seq![*right],
        Instruction::UnaryOp { src, .. } => seq![*src],
        Instruction::Move { src, .. } => seq![*src],
        Instruction::Consume { src, .. } => seq![*src],
        Instruction::ConsumeField { src, .. } => seq![*src],
        Instruction::ConsumeFieldDynamic { target, index, .. } => seq![*target] + seq![*index],
        Instruction::Clone { src, .. } => seq![*src],
        Instruction::StrBytes { src, .. } => seq![*src],
        Instruction::ToStr { src, .. } => seq![*src],
        Instruction::ConditionalSelect { cond, true_val, false_val, .. } => seq![*cond] + seq![*true_val] + seq![*false_val],
        Instruction::JumpIf { cond, .. } => seq![*cond],
        Instruction::JumpIfNot { cond, .. } => seq![*cond],
        Instruction::Call { args, .. } => args@,
        Instruction::DynamicCall { args, .. } => args@,
        Instruction::Lease { source_reg, .. } => seq![*source_reg],
        Instruction::EndLease { source_reg, .. } => seq![*source_reg],
        Instruction::Entangle { regs, .. } => regs@,
        Instruction::MatchEntropy { target, .. } => seq![*target],
        Instruction::ChanSend { src, .. } => seq![*src],
        Instruction::StructLit { fields, .. } => fields@.map_values(|p: (String, Reg)| p.1),
        Instruction::TopologyLit { fields, .. } => fields@.map_values(|p: (String, Reg)| p.1),
        Instruction::ArrayLit { elements, .. } => elements@,
        Instruction::ArrayRepeat { value, count, .. } => seq![*value] + seq![*count],
        Instruction::ArraySlice { target, start, end, .. } => seq![*target] + (match start { Some(x) => seq![*x], None => Seq::<Reg>::empty() }) + (match end { Some(x) => seq![*x], None => Seq::<Reg>::empty() }),
        Instruction::FieldAccess { target, .. } => seq![*target],
        Instruction::FieldUpdate { target, src, .. } => seq![*target] + seq![*src],
        Instruction::Syscall { args, .. } => args@,
        Instruction::AutoDrop { target, .. } => seq![*target],
        Instruction::IndexAccess { target, index, .. } => seq![*target] + seq![*index],
        Instruction::IndexFieldUpdate { target, index, src, .. } => seq![*target] + seq![*index] + seq![*src],
        Instruction::TypeAssert { src, .. } => seq![*src],
        Instruction::TypeCast { src, .. } => seq![*src],
        Instruction::AssertState { src, .. } => seq![*src],
        Instruction::TryTypeAssert { src, .. } => seq![*src],
        Instruction::TryEnumVariant { src, .. } => seq![*src],
        Instruction::Print { src, .. } => seq![*src],
        Instruction::Debug { src, .. } => seq![*src],
        Instruction::For { source, .. } => seq![*source],
        Instruction::SplitMap { source, .. } => seq![*source],
        Instruction::Await { target, .. } => seq![*target],
        Instruction::ForStep { source, .. } => seq![*source],
        Instruction::ArrayLen { src, .. } => seq![*src],
        _ => Seq::<Reg>::empty(),
    }
}
/// The registers whose values the instruction consumes.
pub open spec fn spec_consumed_regs(i: &Instruction) -> Seq<Reg> {
    match i {
        Instruction::Consume { src, .. } => seq![*src],
        Instruction::ConsumeField { src, .. } => seq![*src],
        Instruction::ConsumeFieldDynamic { target, .. } => seq![*target],
        Instruction::Call { args, .. } => args@,
        Instruction::DynamicCall { args, .. } => args@,
        Instruction::ChanSend { src, .. } => seq![*src],
        Instruction::FieldUpdate { target, .. } => seq![*target],
        Instruction::IndexFieldUpdate { target, .. } => seq![*target],
        Instruction::For { source, .. } => seq![*source],
        Instruction::SplitMap { source, .. } => seq![*source],
        Instruction::ForStep { source, .. } => seq![*source],
        _ => Seq::<Reg>::empty(),
    }
}
/// The registers that the instruction decays by a structural read.
pub open spec fn spec_decayed_regs(i: &Instruction) -> Seq<Reg> {
    match i {
        Instruction::FieldAccess { target, .. } => seq![*target],
        Instruction::IndexAccess { target, .. } => seq![*target],
        _ => Seq::<Reg>::empty(),
    }
}
impl InstructionProperties for Instruction {
    /// The register that the instruction defines, if any.
    fn defined_reg(&self) -> (r: Option<Reg>)
        ensures
            r == spec_defined_reg(self),
    {
        match self {
            Instruction::BinaryOp { dest, .. } => Some(*dest),
            Instruction::UnaryOp { dest, .. } => Some(*dest),
            Instruction::LoadInt { dest, .. } => Some(*dest),
            Instruction::LoadFloat { dest, .. } => Some(*dest),
            Instruction::LoadBool { dest, .. } => Some(*dest),
            Instruction::LoadString { dest, .. } => Some(*dest),
            Instruction::LoadNull { dest, .. } => Some(*dest),
            Instruction::ConstInt { dest, .. } => Some(*dest),
            Instruction::ConstFloat { dest, .. } => Some(*dest),
            Instruction::ConstBool { dest, .. } => Some(*dest),
            Instruction::ConstString { dest, .. } => Some(*dest),
            Instruction::ConstNull { dest, .. } => Some(*dest),
            Instruction::Move { dest, .. } => Some(*dest),
            Instruction::Clone { dest, .. } => Some(*dest),
            Instruction::StrBytes { dest, .. } => Some(*dest),
            Instruction::ToStr { dest, .. } => Some(*dest),
            Instruction::ArrayLen { dest, .. } => Some(*dest),
            Instruction::Call { dest, .. } => Some(*dest),
            Instruction::DynamicCall { dest, .. } => Some(*dest),
            Instruction::TypeAssert { dest, .. } => Some(*dest),
            Instruction::TypeCast { dest, .. } => Some(*dest),
            Instruction::TryTypeAssert { dest, .. } => Some(*dest),
            Instruction::TryEnumVariant { dest, .. } => Some(*dest),
            Instruction::StructLit { dest, .. } => Some(*dest),
            Instruction::TopologyLit { dest, .. } => Some(*dest),
            Instruction::ArrayLit { dest, .. } => Some(*dest),
            Instruction::ArrayRepeat { dest, .. } => Some(*dest),
            Instruction::ArraySlice { dest, .. } => Some(*dest),
            Instruction::FieldAccess { dest, .. } => Some(*dest),
            Instruction::IndexAccess { dest, .. } => Some(*dest),
            Instruction::ChanRecv { dest, .. } => Some(*dest),
            Instruction::ConditionalSelect { dest, .. } => Some(*dest),
            Instruction::Defer { dest, .. } => Some(*dest),
            Instruction::Syscall { dest, .. } => Some(*dest),
            Instruction::ArenaIntrospect { dest, .. } => Some(*dest),
            Instruction::CapabilityCheck { dest, .. } => Some(*dest),
            Instruction::Lease { target_reg, .. } => Some(*target_reg),
            Instruction::For { dest_cond, .. } => Some(*dest_cond),
            Instruction::ForStep { dest_cond, .. } => Some(*dest_cond),
            Instruction::SplitMap { item_reg, .. } => Some(*item_reg),
            Instruction::FieldUpdate { target, .. } => Some(*target),
            Instruction::IndexFieldUpdate { target, .. } => Some(*target),
            _ => None,
        }
    }
    /// See `spec_used_regs`.
    fn used_regs(&self) -> (r: Vec<Reg>)
        ensures
            r@ == spec_used_regs(self),
    {
        let mut acc: Vec<Reg> = Vec::new();
        match self {
            Instruction::BinaryOp { left, right, .. } => {
                acc.push(*left);
                acc.push(*right);
            },
            Instruction::UnaryOp { src, .. } => {
                acc.push(*src);
            },
            Instruction::Move { src, .. } => {
                acc.push(*src);
            },
            Instruction::Consume { src, .. } => {
                acc.push(*src);
            },
            Instruction::ConsumeField { src, .. } => {
                acc.push(*src);
            },
            Instruction::ConsumeFieldDynamic { target, index, .. } => {
                acc.push(*target);
                acc.push(*index);
            },
            Instruction::Clone { src, .. } => {
                acc.push(*src);
            },
            Instruction::StrBytes { src, .. } => {
                acc.push(*src);
            },
            Instruction::ToStr { src, .. } => {
                acc.push(*src);
            },
            Instruction::ConditionalSelect { cond, true_val, false_val, .. } => {
                acc.push(*cond);
                acc.push(*true_val);
                acc.push(*false_val);
            },
            Instruction::JumpIf { cond, .. } => {
                acc.push(*cond);
            },
            Instruction::JumpIfNot { cond, .. } => {
                acc.push(*cond);
            },
            Instruction::Call { args, .. } => {
                append_regs_flat(&mut acc, args);
            },
            Instruction::DynamicCall { args, .. } => {
                append_regs_flat(&mut acc, args);
            },
            Instruction::Lease { source_reg, .. } => {
                acc.push(*source_reg);
            },
            Instruction::EndLease { source_reg, .. } => {
                acc.push(*source_reg);
            },
            Instruction::Entangle { regs, .. } => {
                append_regs_flat(&mut acc, regs);
            },
            Instruction::MatchEntropy { target, .. } => {
                acc.push(*target);
            },
            Instruction::ChanSend { src, .. } => {
                acc.push(*src);
            },
            Instruction::StructLit { fields, .. } => {
                append_field_regs_flat(&mut acc, fields);
            },
            Instruction::TopologyLit { fields, .. } => {
                append_field_regs_flat(&mut acc, fields);
            },
            Instruction::ArrayLit { elements, .. } => {
                append_regs_flat(&mut acc, elements);
            },
            Instruction::ArrayRepeat { value, count, .. } => {
                acc.push(*value);
                acc.push(*count);
            },
            Instruction::ArraySlice { target, start, end, .. } => {
                acc.push(*target);
                if let Some(x) = start { acc.push(*x); }
                if let Some(x) = end { acc.push(*x); }
            },
            Instruction::FieldAccess { target, .. } => {
                acc.push(*target);
            },
            Instruction::FieldUpdate { target, src, .. } => {
                acc.push(*target);
                acc.push(*src);
            },
            Instruction::Syscall { args, .. } => {
                append_regs_flat(&mut acc, args);
            },
            Instruction::AutoDrop { target, .. } => {
                acc.push(*target);
            },
            Instruction::IndexAccess { target, index, .. } => {
                acc.push(*target);
                acc.push(*index);
            },
            Instruction::IndexFieldUpdate { target, index, src, .. } => {
                acc.push(*target);
                acc.push(*index);
                acc.push(*src);
            },
            Instruction::TypeAssert { src, .. } => {
                acc.push(*src);
            },
            Instruction::TypeCast { src, .. } => {
                acc.push(*src);
            },
            Instruction::AssertState { src, .. } => {
                acc.push(*src);
            },
            Instruction::TryTypeAssert { src, .. } => {
                acc.push(*src);
            },
            Instruction::TryEnumVariant { src, .. } => {
                acc.push(*src);
            },
            Instruction::Print { src, .. } => {
                acc.push(*src);
            },
            Instruction::Debug { src, .. } => {
                acc.push(*src);
            },
            Instruction::For { source, .. } => {
                acc.push(*source);
            },
            Instruction::SplitMap { source, .. } => {
                acc.push(*source);
            },
            Instruction::Await { target, .. } => {
                acc.push(*target);
            },
            Instruction::ForStep { source, .. } => {
                acc.push(*source);
            },
            Instruction::ArrayLen { src, .. } => {
                acc.push(*src);
            },
            _ => {},
        }
        assert(acc@ =~= spec_used_regs(self));
        acc
    }
    /// See `spec_consumed_regs`.
    fn consumed_regs(&self) -> (r: Vec<Reg>)
        ensures
            r@ == spec_consumed_regs(self),
    {
        let mut acc: Vec<Reg> = Vec::new();
        match self {
            Instruction::Consume { src, .. } => {
                acc.push(*src);
            },
            Instruction::ConsumeField { src, .. } => {
                acc.push(*src);
            },
            Instruction::ConsumeFieldDynamic { target, .. } => {
                acc.push(*target);
            },
            Instruction::Call { args, .. } => {
                append_regs_flat(&mut acc, args);
            },
            Instruction::DynamicCall { args, .. } => {
                append_regs_flat(&mut acc, args);
            },
            Instruction::ChanSend { src, .. } => {
                acc.push(*src);
            },
            Instruction::FieldUpdate { target, .. } => {
                acc.push(*target);
            },
            Instruction::IndexFieldUpdate { target, .. } => {
                acc.push(*target);
            },
            Instruction::For { source, .. } => {
                acc.push(*source);
            },
            Instruction::SplitMap { source, .. } => {
                acc.push(*source);
            },
            Instruction::ForStep { source, .. } => {
                acc.push(*source);
            },
            _ => {},
        }
        assert(acc@ =~= spec_consumed_regs(self));
        acc
    }
    /// See `spec_decayed_regs`.
    fn decayed_regs(&self) -> (r: Vec<Reg>)
        ensures
            r@ == spec_decayed_regs(self),
    {
        let mut acc: Vec<Reg> = Vec::new();
        match self {
            Instruction::FieldAccess { target, .. } => {
                acc.push(*target);
            },
            Instruction::IndexAccess { target, .. } => {
                acc.push(*target);
            },
            _ => {},
        }
        assert(acc@ =~= spec_decayed_regs(self));
        acc
    }
}

} // verus!
